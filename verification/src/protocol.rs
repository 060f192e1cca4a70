//! The protocol of a session: requests and responses, one per line.

use vstd::prelude::*;
use vstd::string::*;
use crate::json::{
    encode_json, json_encoded, json_get_text, json_parsed, parse_json, Json, JsonView,
};
use crate::recovery::opt_str;
use crate::text::{byte_len, text_eq, text_join, utf8};

verus! {

/// The most requests that may be in flight.
pub const MAX_IN_FLIGHT_REQUESTS: usize = 64;

/// The most bytes of the name of a request.
pub const MAX_REQUEST_ID_BYTES: usize = 256;

/// The most bytes of the method of a request.
pub const MAX_METHOD_BYTES: usize = 64;

/// The most bytes of the parameters of a request.
pub const MAX_PARAMS_BYTES: usize = 523_264;

/// The most tasks that a session may send at a time.
pub const MAX_ACTIVE_OUTBOUND_TASKS: usize = 32;

/// The most bytes of what a session is known by.
pub const MAX_IDENTITY_BYTES: usize = 1_024;

/// Some texts.
pub open spec fn texts(items: Seq<String>) -> Seq<Seq<char>> {
    items.map_values(|t: String| t@)
}

/// An error that the broker answers with in its own form.
#[derive(Debug)]
pub struct PrivateBrokerError {
    pub code: String,
    pub message: String,
    pub candidates: Vec<String>,
}

/// An error that the broker answers with in its own form.
pub struct PrivateErrorView {
    pub code: Seq<char>,
    pub message: Seq<char>,
    pub candidates: Seq<Seq<char>>,
}

impl View for PrivateBrokerError {
    type V = PrivateErrorView;

    open spec fn view(&self) -> PrivateErrorView {
        PrivateErrorView {
            code: self.code@,
            message: self.message@,
            candidates: texts(self.candidates@),
        }
    }
}

/// Why a request failed.
#[derive(Debug)]
pub enum SessionFailure {
    /// A failure that is only a text.
    Plain(String),
    /// A message that was delivered could not be acknowledged.
    Acknowledgement(String),
    /// The broker has answered with an error in its own form.
    Private(PrivateBrokerError),
}

/// Why a request failed.
pub enum SessionFailureView {
    Plain(Seq<char>),
    Acknowledgement(Seq<char>),
    Private(PrivateErrorView),
}

impl View for SessionFailure {
    type V = SessionFailureView;

    open spec fn view(&self) -> SessionFailureView {
        match self {
            SessionFailure::Plain(text) => SessionFailureView::Plain(text@),
            SessionFailure::Acknowledgement(text) => SessionFailureView::Acknowledgement(text@),
            SessionFailure::Private(e) => SessionFailureView::Private(e@),
        }
    }
}

/// The text of a failure.
pub open spec fn session_failure_text(f: SessionFailureView) -> Seq<char> {
    match f {
        SessionFailureView::Plain(text) => text,
        SessionFailureView::Acknowledgement(text) => text,
        SessionFailureView::Private(e) => e.message,
    }
}

impl SessionFailure {
    /// A failure that is only a text.
    pub fn plain(text: &str) -> (r: SessionFailure)
        ensures
            r@ == SessionFailureView::Plain(text@),
    {
        SessionFailure::Plain(text.to_owned())
    }

    /// The text of the failure.
    pub fn text(&self) -> (r: String)
        ensures
            r@ == session_failure_text(self@),
    {
        match self {
            SessionFailure::Plain(text) => text.clone(),
            SessionFailure::Acknowledgement(text) => text.clone(),
            SessionFailure::Private(e) => e.message.clone(),
        }
    }
}

/// What a request failed with, if it did.
pub open spec fn session_failure<T>(r: Result<T, SessionFailure>) -> Option<SessionFailureView> {
    match r {
        Ok(_) => None,
        Err(e) => Some(e@),
    }
}

/// A failure that is only a text.
pub open spec fn plainly(text: Seq<char>) -> Option<SessionFailureView> {
    Some(SessionFailureView::Plain(text))
}

/// Fails with a text.
pub fn refuse<T>(text: &str) -> (r: Result<T, SessionFailure>)
    ensures
        r is Err,
        session_failure(r) == plainly(text@),
{
    Err(SessionFailure::Plain(text.to_owned()))
}

/// A request.
#[derive(Debug)]
pub struct SessionRequest {
    pub id: String,
    pub method: String,
    pub params: Json,
}

/// The error of a response.
#[derive(Debug)]
pub struct SessionError {
    pub code: String,
    pub message: String,
    pub candidates: Option<Vec<String>>,
}

/// The error of a response.
pub struct SessionErrorView {
    pub code: Seq<char>,
    pub message: Seq<char>,
    pub candidates: Option<Seq<Seq<char>>>,
}

/// A response.
#[derive(Debug)]
pub struct SessionResponse {
    pub id: String,
    pub result: Option<Json>,
    pub error: Option<SessionError>,
}

/// A response.
pub struct ResponseView {
    pub id: Seq<char>,
    pub result: Option<JsonView>,
    pub error: Option<SessionErrorView>,
}

impl View for SessionError {
    type V = SessionErrorView;

    open spec fn view(&self) -> SessionErrorView {
        SessionErrorView {
            code: self.code@,
            message: self.message@,
            candidates: match self.candidates {
                Some(c) => Some(texts(c@)),
                None => None,
            },
        }
    }
}

impl View for SessionResponse {
    type V = ResponseView;

    open spec fn view(&self) -> ResponseView {
        ResponseView {
            id: self.id@,
            result: crate::pi::opt_json(self.result),
            error: match self.error {
                Some(e) => Some(e@),
                None => None,
            },
        }
    }
}

/// A response with a result.
pub open spec fn succeeded(id: Seq<char>, result: JsonView) -> ResponseView {
    ResponseView { id, result: Some(result), error: None }
}

/// A response with an error.
pub open spec fn failed(id: Seq<char>, code: Seq<char>, message: Seq<char>) -> ResponseView {
    ResponseView {
        id,
        result: None,
        error: Some(SessionErrorView { code, message, candidates: None }),
    }
}

/// A response with an error that names candidates.
pub open spec fn failed_among(
    id: Seq<char>,
    code: Seq<char>,
    message: Seq<char>,
    candidates: Seq<Seq<char>>,
) -> ResponseView {
    ResponseView {
        id,
        result: None,
        error: Some(SessionErrorView { code, message, candidates: Some(candidates) }),
    }
}

impl SessionResponse {
    /// A response with a result.
    pub fn success(id: String, result: Json) -> (r: Self)
        ensures
            r@ == succeeded(id@, result@),
    {
        SessionResponse { id, result: Some(result), error: None }
    }

    /// A response with an error.
    pub fn failure(id: String, code: &str, message: String) -> (r: Self)
        ensures
            r@ == failed(id@, code@, message@),
    {
        SessionResponse {
            id,
            result: None,
            error: Some(SessionError { code: code.to_owned(), message, candidates: None }),
        }
    }

    /// A response with an error that names candidates.
    pub fn failure_with_candidates(
        id: String,
        code: &str,
        message: String,
        candidates: Vec<String>,
    ) -> (r: Self)
        ensures
            r@ == failed_among(id@, code@, message@, texts(candidates@)),
    {
        SessionResponse {
            id,
            result: None,
            error: Some(
                SessionError { code: code.to_owned(), message, candidates: Some(candidates) },
            ),
        }
    }
}

/// The response to a request, by what it came to.
pub open spec fn response_for(
    id: Seq<char>,
    outcome: Result<JsonView, SessionFailureView>,
) -> ResponseView {
    match outcome {
        Ok(value) => succeeded(id, value),
        Err(SessionFailureView::Acknowledgement(text)) => failed(
            id,
            "acknowledgement_failed"@,
            text,
        ),
        Err(SessionFailureView::Private(e)) => if e.candidates.len() > 0 {
            failed_among(id, e.code, e.message, e.candidates)
        } else {
            failed(id, "request_failed"@, e.message)
        },
        Err(SessionFailureView::Plain(text)) => failed(id, "request_failed"@, text),
    }
}

/// A JSON value, or what a request failed with.
pub open spec fn json_request(r: Result<Json, SessionFailure>) -> Result<
    JsonView,
    SessionFailureView,
> {
    match r {
        Ok(v) => Ok(v@),
        Err(e) => Err(e@),
    }
}

/// Makes the response to a request from what it came to.
pub fn execute_request(id: String, outcome: Result<Json, SessionFailure>) -> (r: SessionResponse)
    ensures
        r@ == response_for(id@, json_request(outcome)),
{
    match outcome {
        Ok(value) => SessionResponse::success(id, value),
        Err(failure) => match failure {
            SessionFailure::Acknowledgement(text) => SessionResponse::failure(
                id,
                "acknowledgement_failed",
                text,
            ),
            SessionFailure::Private(e) => {
                assert(texts(e.candidates@).len() == e.candidates@.len());
                if e.candidates.len() > 0 {
                    SessionResponse::failure_with_candidates(
                        id,
                        e.code.as_str(),
                        e.message,
                        e.candidates,
                    )
                } else {
                    SessionResponse::failure(id, "request_failed", e.message)
                }
            },
            SessionFailure::Plain(text) => SessionResponse::failure(id, "request_failed", text),
        },
    }
}

/// A response has a result or an error, and never both; and it is one to the
/// request that it names.
pub proof fn law_a_response_answers_its_request(
    id: Seq<char>,
    outcome: Result<JsonView, SessionFailureView>,
)
    ensures
        response_for(id, outcome).id == id,
        response_for(id, outcome).result is Some == outcome is Ok,
        response_for(id, outcome).error is Some == outcome is Err,
{
}

/// The name of a request that could be told although the request is wrong.
pub open spec fn recovered_id(v: JsonView) -> Seq<char> {
    match json_get_text(v, "id"@) {
        Some(id) => if id.len() > 0 && utf8(id).len() <= MAX_REQUEST_ID_BYTES {
            id
        } else {
            ""@
        },
        None => ""@,
    }
}

/// What is wrong with a request, as the response to it.
pub open spec fn request_failure(request: SessionRequest) -> Option<ResponseView> {
    if request.id@.len() == 0 || utf8(request.id@).len() > MAX_REQUEST_ID_BYTES {
        Some(
            failed(""@, "protocol_error"@, "request ID must be a non-empty bounded string"@),
        )
    } else if request.method@.len() == 0 || utf8(request.method@).len() > MAX_METHOD_BYTES {
        Some(
            failed(
                request.id@,
                "protocol_error"@,
                "request method must be a non-empty bounded string"@,
            ),
        )
    } else if !(request.params@ is Object) || json_encoded(request.params@).len()
        > MAX_PARAMS_BYTES {
        Some(
            failed(request.id@, "protocol_error"@, "request params must be a bounded object"@),
        )
    } else {
        None
    }
}

/// What is wrong with a line, as the response to it.
pub open spec fn line_failure(
    parsed: Result<JsonView, Seq<char>>,
    envelope: Result<SessionRequest, String>,
) -> Option<ResponseView> {
    match parsed {
        Err(e) => Some(failed(""@, "protocol_error"@, "invalid JSON request: "@ + e)),
        Ok(v) => match envelope {
            Err(e) => Some(
                failed(
                    recovered_id(v),
                    "protocol_error"@,
                    "invalid request envelope: "@ + e@,
                ),
            ),
            Ok(request) => request_failure(request),
        },
    }
}

fn is_bounded(s: &str, max: usize) -> (r: bool)
    ensures
        r == (s@.len() > 0 && utf8(s@).len() <= max),
{
    !s.is_empty() && byte_len(s) <= max
}

fn protocol_error<T>(id: String, message: String) -> (r: Result<T, SessionResponse>)
    ensures
        r is Err,
        r->Err_0@ == failed(id@, "protocol_error"@, message@),
{
    Err(SessionResponse::failure(id, "protocol_error", message))
}

/// Checks a request.
pub fn check_session_request(request: SessionRequest) -> (r: Result<
    SessionRequest,
    SessionResponse,
>)
    ensures
        r is Ok == request_failure(request) is None,
        r is Ok ==> r->Ok_0 == request,
        r is Err ==> Some(r->Err_0@) == request_failure(request),
{
    if !is_bounded(request.id.as_str(), MAX_REQUEST_ID_BYTES) {
        return protocol_error(
            "".to_owned(),
            "request ID must be a non-empty bounded string".to_owned(),
        );
    }
    if !is_bounded(request.method.as_str(), MAX_METHOD_BYTES) {
        return protocol_error(
            request.id,
            "request method must be a non-empty bounded string".to_owned(),
        );
    }
    let is_object = match &request.params {
        Json::Object(_) => true,
        _ => false,
    };
    if !is_object || encode_json(&request.params).len() > MAX_PARAMS_BYTES {
        return protocol_error(
            request.id,
            "request params must be a bounded object".to_owned(),
        );
    }
    Ok(request)
}

/// Takes the name of a request that could be told although the request is wrong.
pub fn recover_id(value: &Json) -> (r: String)
    ensures
        r@ == recovered_id(value@),
{
    match value.get_text("id") {
        Some(id) => {
            if is_bounded(id.as_str(), MAX_REQUEST_ID_BYTES) {
                id.clone()
            } else {
                "".to_owned()
            }
        },
        None => "".to_owned(),
    }
}

/// Reads the request of a line, where the envelope is what the line says as a
/// request.
pub fn parse_session_request(line: &[u8], envelope: Result<SessionRequest, String>) -> (r: Result<
    SessionRequest,
    SessionResponse,
>)
    ensures
        r is Ok == line_failure(json_parsed(line@), envelope) is None,
        r is Ok ==> envelope is Ok && r->Ok_0 == envelope->Ok_0,
        r is Err ==> Some(r->Err_0@) == line_failure(json_parsed(line@), envelope),
{
    match parse_json(line) {
        Err(e) => protocol_error(
            "".to_owned(),
            text_join("invalid JSON request: ", e.as_str()),
        ),
        Ok(value) => match envelope {
            Err(e) => protocol_error(
                recover_id(&value),
                text_join("invalid request envelope: ", e.as_str()),
            ),
            Ok(request) => check_session_request(request),
        },
    }
}

/// The requests in flight.
#[derive(Debug)]
pub struct InFlight {
    pub ids: Vec<String>,
}

/// Why a request cannot be taken on.
#[derive(Clone, Copy, Debug, PartialEq, Eq, Structural)]
pub enum ReserveIdError {
    Duplicate,
    Full,
}

impl InFlight {
    /// The names of the requests in flight.
    pub open spec fn names(&self) -> Seq<Seq<char>> {
        texts(self.ids@)
    }

    /// No name is in flight twice, and there are no more than may be.
    pub open spec fn ok(&self) -> bool {
        self.ids@.len() <= MAX_IN_FLIGHT_REQUESTS && self.names().no_duplicates()
    }

    /// Nothing is in flight.
    pub fn new() -> (r: Self)
        ensures
            r.ok(),
            r.names().len() == 0,
    {
        InFlight { ids: Vec::new() }
    }

    fn find(&self, id: &str) -> (r: Option<usize>)
        ensures
            r is Some == self.names().contains(id@),
            r is Some ==> r->0 < self.ids@.len() && self.names()[r->0 as int] == id@,
    {
        let ghost v = self.names();
        let mut i: usize = 0;
        while i < self.ids.len()
            invariant
                i <= self.ids.len(),
                v == self.names(),
                forall|k: int| 0 <= k < i ==> #[trigger] v[k] != id@,
            decreases self.ids.len() - i,
        {
            assert(v[i as int] == self.ids@[i as int]@);
            if text_eq(self.ids[i].as_str(), id) {
                return Some(i);
            }
            i += 1;
        }
        None
    }

    /// Takes a request on: its name must not be in flight, and there must be room.
    pub fn reserve_id(&mut self, id: &str) -> (r: Result<(), ReserveIdError>)
        requires
            old(self).ok(),
        ensures
            final(self).ok(),
            r == if old(self).names().contains(id@) {
                Err::<(), ReserveIdError>(ReserveIdError::Duplicate)
            } else if old(self).names().len() >= MAX_IN_FLIGHT_REQUESTS {
                Err::<(), ReserveIdError>(ReserveIdError::Full)
            } else {
                Ok::<(), ReserveIdError>(())
            },
            final(self).names() == if r is Ok {
                old(self).names().push(id@)
            } else {
                old(self).names()
            },
    {
        if self.find(id).is_some() {
            return Err(ReserveIdError::Duplicate);
        }
        if self.ids.len() >= MAX_IN_FLIGHT_REQUESTS {
            return Err(ReserveIdError::Full);
        }
        self.ids.push(id.to_owned());
        proof {
            let before = old(self).names();
            assert(self.names() =~= before.push(id@));
            assert forall|i: int, j: int|
                0 <= i < self.names().len() && 0 <= j < self.names().len() && i
                    != j implies self.names()[i] != self.names()[j] by {
                if i == before.len() {
                    assert(before.contains(before[j]));
                } else if j == before.len() {
                    assert(before.contains(before[i]));
                }
            }
        }
        Ok(())
    }

    /// Lets a request go, before its response is written: its name can be used
    /// again as soon as the response can be seen.
    pub fn release_id(&mut self, id: &str)
        requires
            old(self).ok(),
        ensures
            final(self).ok(),
            !final(self).names().contains(id@),
            forall|name: Seq<char>| #![auto]
                name != id@ ==> (final(self).names().contains(name) == old(
                    self,
                ).names().contains(name)),
    {
        match self.find(id) {
            None => {},
            Some(i) => {
                let ghost before = self.names();
                let _ = self.ids.remove(i);
                proof {
                    let after = self.names();
                    assert(after =~= before.remove(i as int));
                    assert forall|a: int, b: int|
                        0 <= a < after.len() && 0 <= b < after.len() && a != b implies after[a]
                        != after[b] by {
                        let x = if a < i {
                            a
                        } else {
                            a + 1
                        };
                        let y = if b < i {
                            b
                        } else {
                            b + 1
                        };
                        assert(after[a] == before[x] && after[b] == before[y]);
                    }
                    assert forall|name: Seq<char>| name != id@ implies (after.contains(name)
                        == before.contains(name)) by {
                        if before.contains(name) {
                            let k = choose|k: int| 0 <= k < before.len() && before[k] == name;
                            let at = if k < i {
                                k
                            } else {
                                k - 1
                            };
                            assert(after[at] == name);
                        }
                        if after.contains(name) {
                            let k = choose|k: int| 0 <= k < after.len() && after[k] == name;
                            let at = if k < i {
                                k
                            } else {
                                k + 1
                            };
                            assert(before[at] == name);
                        }
                    }
                    if after.contains(id@) {
                        let k = choose|k: int| 0 <= k < after.len() && after[k] == id@;
                        let at = if k < i {
                            k
                        } else {
                            k + 1
                        };
                        assert(before[at] == before[i as int]);
                    }
                }
            },
        }
    }
}

/// What a session is asked to do.
#[derive(Clone, Copy, Debug, PartialEq, Eq, Structural)]
pub enum SessionMethod {
    ListAgents,
    CreateTeam,
    Status,
    Doctor,
    ManagedRemove,
    SendMessage,
    WaitForMessage,
    Reply,
    CancelTask,
}

/// The method of a name.
pub open spec fn method_named(name: Seq<char>) -> Option<SessionMethod> {
    if name == "list_agents"@ {
        Some(SessionMethod::ListAgents)
    } else if name == "create_team"@ {
        Some(SessionMethod::CreateTeam)
    } else if name == "status"@ {
        Some(SessionMethod::Status)
    } else if name == "doctor"@ {
        Some(SessionMethod::Doctor)
    } else if name == "managed_remove"@ {
        Some(SessionMethod::ManagedRemove)
    } else if name == "send_message"@ {
        Some(SessionMethod::SendMessage)
    } else if name == "wait_for_message"@ {
        Some(SessionMethod::WaitForMessage)
    } else if name == "reply"@ {
        Some(SessionMethod::Reply)
    } else if name == "cancel_task"@ {
        Some(SessionMethod::CancelTask)
    } else {
        None
    }
}

/// Tells what a request asks for.
pub fn handle_request(method: &str) -> (r: Result<SessionMethod, SessionFailure>)
    ensures
        r is Ok == method_named(method@) is Some,
        r is Ok ==> Some(r->Ok_0) == method_named(method@),
        r is Err ==> session_failure(r) == plainly("unknown session method"@),
{
    if text_eq(method, "list_agents") {
        Ok(SessionMethod::ListAgents)
    } else if text_eq(method, "create_team") {
        Ok(SessionMethod::CreateTeam)
    } else if text_eq(method, "status") {
        Ok(SessionMethod::Status)
    } else if text_eq(method, "doctor") {
        Ok(SessionMethod::Doctor)
    } else if text_eq(method, "managed_remove") {
        Ok(SessionMethod::ManagedRemove)
    } else if text_eq(method, "send_message") {
        Ok(SessionMethod::SendMessage)
    } else if text_eq(method, "wait_for_message") {
        Ok(SessionMethod::WaitForMessage)
    } else if text_eq(method, "reply") {
        Ok(SessionMethod::Reply)
    } else if text_eq(method, "cancel_task") {
        Ok(SessionMethod::CancelTask)
    } else {
        refuse("unknown session method")
    }
}

/// The next piece of the input of a session.
#[derive(Debug)]
pub enum InputFrame {
    /// A line, and what it says as a request.
    Line(Vec<u8>, Result<SessionRequest, String>),
    Oversized,
    Eof,
    /// The operating system's error.
    Io(String),
}

/// What is done about a piece of the input.
#[derive(Debug)]
pub enum IntakeStep {
    /// The session ends.
    End,
    /// The session ends with an error.
    Stop(SessionFailure),
    /// A response is written, and only then the next piece is taken.
    Answer(SessionResponse),
    /// A request is carried out.
    Run(SessionRequest),
    /// A request for the agents is carried out; its response has a place among
    /// those of its kind.
    RunList(SessionRequest, u64),
}

/// What is done about a piece of the input.
pub enum IntakeView {
    End,
    Stop(SessionFailureView),
    Answer(ResponseView),
    Run(SessionRequest),
    RunList(SessionRequest, u64),
}

impl View for IntakeStep {
    type V = IntakeView;

    open spec fn view(&self) -> IntakeView {
        match self {
            IntakeStep::End => IntakeView::End,
            IntakeStep::Stop(f) => IntakeView::Stop(f@),
            IntakeStep::Answer(r) => IntakeView::Answer(r@),
            IntakeStep::Run(r) => IntakeView::Run(*r),
            IntakeStep::RunList(r, n) => IntakeView::RunList(*r, *n),
        }
    }
}

/// What is done about a request that was read.
pub open spec fn admitted(request: SessionRequest, names: Seq<Seq<char>>, sequence: u64) -> IntakeView {
    if names.contains(request.id@) {
        IntakeView::Answer(
            failed(request.id@, "duplicate_id"@, "request ID is already in flight"@),
        )
    } else if names.len() >= MAX_IN_FLIGHT_REQUESTS {
        IntakeView::Answer(
            failed(request.id@, "too_many_requests"@, "too many requests are in flight"@),
        )
    } else if request.method@ == "list_agents"@ {
        if sequence == u64::MAX {
            IntakeView::Stop(SessionFailureView::Plain("list request sequence exhausted"@))
        } else {
            IntakeView::RunList(request, sequence)
        }
    } else {
        IntakeView::Run(request)
    }
}

/// What is done about a piece of the input.
pub open spec fn intake(frame: InputFrame, names: Seq<Seq<char>>, sequence: u64) -> IntakeView {
    match frame {
        InputFrame::Eof => IntakeView::End,
        InputFrame::Io(e) => IntakeView::Stop(SessionFailureView::Plain(e@)),
        InputFrame::Oversized => IntakeView::Answer(
            failed(
                ""@,
                "protocol_error"@,
                "NDJSON request exceeds the bounded envelope size"@,
            ),
        ),
        InputFrame::Line(line, envelope) => match line_failure(json_parsed(line@), envelope) {
            Some(response) => IntakeView::Answer(response),
            None => admitted(envelope->Ok_0, names, sequence),
        },
    }
}

/// The intake of a session: the requests in flight, and how many requests for the
/// agents there were.
#[derive(Debug)]
pub struct Intake {
    pub in_flight: InFlight,
    pub list_sequence: u64,
}

impl Intake {
    /// The intake at the start of a session.
    pub fn new() -> (r: Self)
        ensures
            r.in_flight.ok(),
            r.in_flight.names().len() == 0,
            r.list_sequence == 0,
    {
        Intake { in_flight: InFlight::new(), list_sequence: 0 }
    }

    /// Takes the next piece of the input.
    pub fn accept(&mut self, frame: InputFrame) -> (r: IntakeStep)
        requires
            old(self).in_flight.ok(),
        ensures
            final(self).in_flight.ok(),
            r@ == intake(frame, old(self).in_flight.names(), old(self).list_sequence),
            final(self).list_sequence == if r is RunList {
                (old(self).list_sequence + 1) as u64
            } else {
                old(self).list_sequence
            },
            r is End || r is Answer ==> final(self).in_flight.names() == old(
                self,
            ).in_flight.names(),
            r is Stop ==> final(self).in_flight.names() == match frame {
                InputFrame::Line(_, envelope) => old(self).in_flight.names().push(
                    envelope->Ok_0.id@,
                ),
                _ => old(self).in_flight.names(),
            },
            r is Run ==> final(self).in_flight.names() == old(self).in_flight.names().push(
                r->Run_0.id@,
            ),
            r is RunList ==> final(self).in_flight.names() == old(self).in_flight.names().push(
                r->RunList_0.id@,
            ),
    {
        let (line, envelope) = match frame {
            InputFrame::Eof => {
                return IntakeStep::End;
            },
            InputFrame::Io(e) => {
                return IntakeStep::Stop(SessionFailure::Plain(e));
            },
            InputFrame::Oversized => {
                return IntakeStep::Answer(
                    SessionResponse::failure(
                        "".to_owned(),
                        "protocol_error",
                        "NDJSON request exceeds the bounded envelope size".to_owned(),
                    ),
                );
            },
            InputFrame::Line(line, envelope) => (line, envelope),
        };
        let request = match parse_session_request(line.as_slice(), envelope) {
            Ok(request) => request,
            Err(response) => {
                return IntakeStep::Answer(response);
            },
        };
        match self.in_flight.reserve_id(request.id.as_str()) {
            Ok(_) => {},
            Err(ReserveIdError::Duplicate) => {
                return IntakeStep::Answer(
                    SessionResponse::failure(
                        request.id,
                        "duplicate_id",
                        "request ID is already in flight".to_owned(),
                    ),
                );
            },
            Err(ReserveIdError::Full) => {
                return IntakeStep::Answer(
                    SessionResponse::failure(
                        request.id,
                        "too_many_requests",
                        "too many requests are in flight".to_owned(),
                    ),
                );
            },
        }
        if text_eq(request.method.as_str(), "list_agents") {
            let sequence = self.list_sequence;
            if sequence == u64::MAX {
                return IntakeStep::Stop(SessionFailure::plain("list request sequence exhausted"));
            }
            self.list_sequence = sequence + 1;
            return IntakeStep::RunList(request, sequence);
        }
        IntakeStep::Run(request)
    }
}

/// A request that is carried out was not in flight, and requests are only carried
/// out while there is room for them.
pub proof fn law_running_requests_have_names_of_their_own(
    frame: InputFrame,
    names: Seq<Seq<char>>,
    sequence: u64,
)
    ensures
        match intake(frame, names, sequence) {
            IntakeView::Run(request) => !names.contains(request.id@) && names.len()
                < MAX_IN_FLIGHT_REQUESTS && request_failure(request) is None,
            IntakeView::RunList(request, _) => !names.contains(request.id@) && names.len()
                < MAX_IN_FLIGHT_REQUESTS && request_failure(request) is None,
            _ => true,
        },
{
}

/// The responses to requests for the agents, which are written in the order of the
/// requests.
#[derive(Debug)]
pub struct OrderedList {
    pub next_sequence: u64,
    pub pending: Vec<(u64, SessionResponse)>,
}

/// The waiting responses by their places.
pub open spec fn waiting(pending: Seq<(u64, SessionResponse)>) -> Map<u64, ResponseView> {
    Map::new(
        |n: u64| exists|i: int| 0 <= i < pending.len() && (#[trigger] pending[i]).0 == n,
        |n: u64| pending[choose|i: int| 0 <= i < pending.len() && (#[trigger] pending[i]).0 == n].1@,
    )
}

/// A response is the one of a place.
pub open spec fn holds_at(all: Map<u64, ResponseView>, n: int, response: ResponseView) -> bool {
    0 <= n < u64::MAX && all.contains_key(n as u64) && all[n as u64] == response
}

/// Some responses are those of the places from a start on, without a gap.
pub open spec fn consecutive(
    all: Map<u64, ResponseView>,
    start: u64,
    responses: Seq<SessionResponse>,
) -> bool {
    forall|i: int| 0 <= i < responses.len() ==> holds_at(all, start + i, (#[trigger] responses[i])@)
}

impl OrderedList {
    /// Each place is taken once, and none of them was written already.
    pub open spec fn ok(&self) -> bool {
        &&& forall|i: int, j: int|
            0 <= i < j < self.pending@.len() ==> (#[trigger] self.pending@[i]).0 != (
            #[trigger] self.pending@[j]).0
        &&& forall|i: int|
            0 <= i < self.pending@.len() ==> self.next_sequence < (#[trigger] self.pending@[i]).0
                < u64::MAX
    }

    /// Nothing was written yet.
    pub fn new() -> (r: Self)
        ensures
            r.ok(),
            r.next_sequence == 0,
            r.pending@.len() == 0,
    {
        OrderedList { next_sequence: 0, pending: Vec::new() }
    }

    /// Takes the response with a place, and hands out those that can be written
    /// now, in order.
    pub fn submit(&mut self, sequence: u64, response: SessionResponse) -> (r: Vec<SessionResponse>)
        requires
            old(self).ok(),
            old(self).next_sequence <= sequence < u64::MAX,
            !waiting(old(self).pending@).contains_key(sequence),
        ensures
            final(self).ok(),
            final(self).next_sequence == old(self).next_sequence + r@.len(),
            consecutive(
                waiting(old(self).pending@).insert(sequence, response@),
                old(self).next_sequence,
                r@,
            ),
            waiting(final(self).pending@) == waiting(old(self).pending@).insert(
                sequence,
                response@,
            ).remove_keys(
                Set::new(
                    |n: u64|
                        old(self).next_sequence <= n < old(self).next_sequence + r@.len(),
                ),
            ),
            !waiting(final(self).pending@).contains_key(final(self).next_sequence),
    {
        let ghost start = self.next_sequence;
        let ghost all = waiting(self.pending@).insert(sequence, response@);
        let ghost before = self.pending@;
        self.pending.push((sequence, response));
        proof {
            lemma_waiting_push(before, sequence, response);
        }
        let mut out: Vec<SessionResponse> = Vec::new();
        proof {
            assert(waiting(self.pending@) =~= all.remove_keys(
                Set::new(|n: u64| start <= n < start + out@.len()),
            ));
        }
        loop
            invariant
                start == old(self).next_sequence,
                all == waiting(old(self).pending@).insert(sequence, response@),
                self.next_sequence == start + out@.len(),
                forall|i: int, j: int|
                    0 <= i < j < self.pending@.len() ==> (#[trigger] self.pending@[i]).0 != (
                    #[trigger] self.pending@[j]).0,
                forall|i: int|
                    0 <= i < self.pending@.len() ==> self.next_sequence <= (
                    #[trigger] self.pending@[i]).0 < u64::MAX,
                consecutive(all, start, out@),
                waiting(self.pending@) == all.remove_keys(
                    Set::new(|n: u64| start <= n < start + out@.len()),
                ),
            decreases self.pending@.len(),
        {
            match find_sequence(&self.pending, self.next_sequence) {
                None => {
                    return out;
                },
                Some(i) => {
                    let ghost held = self.pending@;
                    let ghost n = self.next_sequence;
                    let (place, released) = self.pending.remove(i);
                    proof {
                        lemma_waiting_at(held, i as int);
                        lemma_waiting_remove(held, i as int);
                        assert(self.pending@ =~= held.remove(i as int));
                        assert(all.contains_key(n) && all[n] == released@) by {
                            assert(waiting(held).contains_key(n));
                        }
                        assert forall|k: int| 0 <= k < self.pending@.len() implies n < (
                        #[trigger] self.pending@[k]).0 < u64::MAX by {
                            let at = if k < i {
                                k
                            } else {
                                k + 1
                            };
                            assert(self.pending@[k] == held[at]);
                        }
                    }
                    let ghost was = out@;
                    out.push(released);
                    self.next_sequence = self.next_sequence + 1;
                    proof {
                        assert forall|k: int| 0 <= k < out@.len() implies holds_at(
                            all,
                            start + k,
                            (#[trigger] out@[k])@,
                        ) by {
                            if k < was.len() {
                                assert(out@[k] == was[k]);
                            }
                        }
                        assert(waiting(self.pending@) =~= all.remove_keys(
                            Set::new(|m: u64| start <= m < start + out@.len()),
                        ));
                    }
                },
            }
        }
    }
}

proof fn lemma_waiting_at(pending: Seq<(u64, SessionResponse)>, i: int)
    requires
        0 <= i < pending.len(),
        forall|a: int, b: int|
            0 <= a < b < pending.len() ==> (#[trigger] pending[a]).0 != (#[trigger] pending[b]).0,
    ensures
        waiting(pending).contains_key(pending[i].0),
        waiting(pending)[pending[i].0] == pending[i].1@,
{
    let n = pending[i].0;
    assert(pending[i].0 == n);
    let k = choose|k: int| 0 <= k < pending.len() && (#[trigger] pending[k]).0 == n;
    assert(k == i) by {
        if k < i {
            assert(pending[k].0 != pending[i].0);
        } else if i < k {
            assert(pending[i].0 != pending[k].0);
        }
    }
}

proof fn lemma_waiting_push(
    pending: Seq<(u64, SessionResponse)>,
    sequence: u64,
    response: SessionResponse,
)
    requires
        forall|a: int, b: int|
            0 <= a < b < pending.len() ==> (#[trigger] pending[a]).0 != (#[trigger] pending[b]).0,
        !waiting(pending).contains_key(sequence),
    ensures
        waiting(pending.push((sequence, response))) == waiting(pending).insert(
            sequence,
            response@,
        ),
        forall|a: int, b: int|
            0 <= a < b < pending.len() + 1 ==> (#[trigger] pending.push((sequence, response))[a]).0
                != (#[trigger] pending.push((sequence, response))[b]).0,
{
    let more = pending.push((sequence, response));
    assert forall|a: int, b: int| 0 <= a < b < more.len() implies (#[trigger] more[a]).0 != (
    #[trigger] more[b]).0 by {
        assert(more[a] == pending[a]);
        if b < pending.len() {
            assert(more[b] == pending[b]);
        } else if pending[a].0 == sequence {
            assert(waiting(pending).contains_key(sequence));
        }
    }
    assert forall|n: u64| waiting(more).contains_key(n) == waiting(pending).insert(
        sequence,
        response@,
    ).contains_key(n) by {
        if waiting(more).contains_key(n) {
            let k = choose|k: int| 0 <= k < more.len() && (#[trigger] more[k]).0 == n;
            if k < pending.len() {
                assert(pending[k] == more[k]);
            }
        }
        if n == sequence {
            assert(more[pending.len() as int].0 == n);
        }
        if waiting(pending).contains_key(n) {
            let k = choose|k: int| 0 <= k < pending.len() && (#[trigger] pending[k]).0 == n;
            assert(more[k].0 == n);
        }
    }
    assert forall|n: u64| waiting(more).contains_key(n) implies waiting(more)[n] == waiting(
        pending,
    ).insert(sequence, response@)[n] by {
        let k = choose|k: int| 0 <= k < more.len() && (#[trigger] more[k]).0 == n;
        lemma_waiting_at(more, k);
        if k < pending.len() {
            assert(pending[k] == more[k]);
            lemma_waiting_at(pending, k);
            assert(n != sequence);
        }
    }
    assert(waiting(more) =~= waiting(pending).insert(sequence, response@));
}

proof fn lemma_waiting_remove(pending: Seq<(u64, SessionResponse)>, i: int)
    requires
        0 <= i < pending.len(),
        forall|a: int, b: int|
            0 <= a < b < pending.len() ==> (#[trigger] pending[a]).0 != (#[trigger] pending[b]).0,
    ensures
        waiting(pending.remove(i)) == waiting(pending).remove(pending[i].0),
        forall|a: int, b: int|
            0 <= a < b < pending.len() - 1 ==> (#[trigger] pending.remove(i)[a]).0 != (
            #[trigger] pending.remove(i)[b]).0,
{
    let less = pending.remove(i);
    assert forall|a: int, b: int| 0 <= a < b < less.len() implies (#[trigger] less[a]).0 != (
    #[trigger] less[b]).0 by {
        let x = if a < i {
            a
        } else {
            a + 1
        };
        let y = if b < i {
            b
        } else {
            b + 1
        };
        assert(less[a] == pending[x] && less[b] == pending[y]);
    }
    assert forall|n: u64| waiting(less).contains_key(n) == waiting(pending).remove(
        pending[i].0,
    ).contains_key(n) by {
        if waiting(less).contains_key(n) {
            let k = choose|k: int| 0 <= k < less.len() && (#[trigger] less[k]).0 == n;
            let at = if k < i {
                k
            } else {
                k + 1
            };
            assert(less[k] == pending[at]);
            if at < i {
                assert(pending[at].0 != pending[i].0);
            } else {
                assert(pending[i].0 != pending[at].0);
            }
        }
        if waiting(pending).contains_key(n) && n != pending[i].0 {
            let k = choose|k: int| 0 <= k < pending.len() && (#[trigger] pending[k]).0 == n;
            let at = if k < i {
                k
            } else {
                k - 1
            };
            assert(less[at] == pending[k]);
        }
    }
    assert forall|n: u64| waiting(less).contains_key(n) implies waiting(less)[n] == waiting(
        pending,
    ).remove(pending[i].0)[n] by {
        let k = choose|k: int| 0 <= k < less.len() && (#[trigger] less[k]).0 == n;
        lemma_waiting_at(less, k);
        let at = if k < i {
            k
        } else {
            k + 1
        };
        assert(less[k] == pending[at]);
        lemma_waiting_at(pending, at);
    }
    assert(waiting(less) =~= waiting(pending).remove(pending[i].0));
}

fn find_sequence(pending: &Vec<(u64, SessionResponse)>, sequence: u64) -> (r: Option<usize>)
    ensures
        r is Some == waiting(pending@).contains_key(sequence),
        r is Some ==> r->0 < pending@.len() && pending@[r->0 as int].0 == sequence,
{
    let mut i: usize = 0;
    while i < pending.len()
        invariant
            i <= pending.len(),
            forall|k: int| 0 <= k < i ==> (#[trigger] pending@[k]).0 != sequence,
        decreases pending.len() - i,
    {
        if pending[i].0 == sequence {
            assert(pending@[i as int].0 == sequence);
            return Some(i);
        }
        i += 1;
    }
    None
}

/// What a session ends with: its own error first, then that of a request, then that of
/// the writer.
pub open spec fn run_result<E>(own: Result<(), E>, producer: Option<E>, writer: Result<(), E>) -> Result<
    (),
    E,
> {
    match own {
        Err(e) => Err::<(), E>(e),
        Ok(_) => match producer {
            Some(e) => Err::<(), E>(e),
            None => writer,
        },
    }
}

/// What a session ends with: its own error before the first of its requests, and
/// that before the error of writing.
pub fn resolve_run_loop_result<E>(
    primary_result: Result<(), E>,
    producer_error: Option<E>,
    writer_result: Result<(), E>,
) -> (r: Result<(), E>)
    ensures
        r == run_result(primary_result, producer_error, writer_result),
{
    match primary_result {
        Err(e) => Err(e),
        Ok(_) => match producer_error {
            Some(e) => Err(e),
            None => writer_result,
        },
    }
}

/// The error of a request that is kept: the first one, before the session was cancelled.
pub open spec fn kept_error<E>(current: Option<E>, next: Option<E>, cancelled: bool) -> Option<E> {
    match current {
        Some(e) => Some(e),
        None => if cancelled {
            None
        } else {
            next
        },
    }
}

/// The first error of the requests: one that was cancelled has none.
pub fn first_producer_error<E>(current: Option<E>, next: Option<E>, cancelled: bool) -> (r: Option<
    E,
>)
    ensures
        r == kept_error(current, next, cancelled),
{
    match current {
        Some(e) => Some(e),
        None => if cancelled {
            None
        } else {
            next
        },
    }
}

/// What is wrong with what a session is known by.
pub open spec fn identity_failure(harness: Seq<char>, pane: Option<Seq<char>>) -> Option<
    SessionFailureView,
> {
    if harness.len() == 0 || utf8(
        harness,
    ).len() > MAX_IDENTITY_BYTES {
        plainly("--harness-session-id must be non-empty and bounded"@)
    } else {
        match pane {
            None => plainly("HERDR_PANE_ID is required"@),
            Some(pane) => if pane.len() == 0 || utf8(pane).len() > MAX_IDENTITY_BYTES {
                plainly("HERDR_PANE_ID must be non-empty and bounded"@)
            } else {
                None
            },
        }
    }
}

/// What is wrong with what a session is known by.
pub fn check_session_identity(harness_session_id: &str, pane_id: Option<&str>) -> (r: Result<
    (),
    SessionFailure,
>)
    ensures
        session_failure(r) == identity_failure(harness_session_id@, opt_str(pane_id)),
{
    if !is_bounded(harness_session_id, MAX_IDENTITY_BYTES) {
        return refuse("--harness-session-id must be non-empty and bounded");
    }
    match pane_id {
        None => refuse("HERDR_PANE_ID is required"),
        Some(pane) => {
            if !is_bounded(pane, MAX_IDENTITY_BYTES) {
                return refuse("HERDR_PANE_ID must be non-empty and bounded");
            }
            Ok(())
        },
    }
}

/// The methods of a session and their names are one to one: a text names a method
/// just when it is the name of that method, and no other text names any.
pub proof fn law_each_method_has_its_name(name: Seq<char>, method: SessionMethod)
    ensures
        method_named(name) == Some(method) <==> name == (match method {
            SessionMethod::ListAgents => "list_agents"@,
            SessionMethod::CreateTeam => "create_team"@,
            SessionMethod::Status => "status"@,
            SessionMethod::Doctor => "doctor"@,
            SessionMethod::ManagedRemove => "managed_remove"@,
            SessionMethod::SendMessage => "send_message"@,
            SessionMethod::WaitForMessage => "wait_for_message"@,
            SessionMethod::Reply => "reply"@,
            SessionMethod::CancelTask => "cancel_task"@,
        }),
{
    reveal_strlit("list_agents");
    reveal_strlit("create_team");
    reveal_strlit("status");
    reveal_strlit("doctor");
    reveal_strlit("managed_remove");
    reveal_strlit("send_message");
    reveal_strlit("wait_for_message");
    reveal_strlit("reply");
    reveal_strlit("cancel_task");
    assert("list_agents"@[0] == 'l');
    assert("create_team"@[0] == 'c' && "create_team"@[1] == 'r');
    assert("status"@[0] == 's' && "status"@[1] == 't');
    assert("doctor"@[0] == 'd');
    assert("managed_remove"@[0] == 'm');
    assert("send_message"@[0] == 's' && "send_message"@[1] == 'e');
    assert("wait_for_message"@[0] == 'w');
    assert("reply"@[0] == 'r');
    assert("cancel_task"@[0] == 'c' && "cancel_task"@[1] == 'a');
}

/// A request that is carried out has a name of up to 256 bytes and a method of up to
/// 64, neither of them empty, and an object of bounded length as its parameters; and
/// every such request is acceptable.
pub proof fn law_carried_out_requests_are_bounded(request: SessionRequest)
    ensures
        request_failure(request) is None <==> (0 < request.id@.len() && utf8(request.id@).len()
            <= 256 && 0 < request.method@.len() && utf8(request.method@).len() <= 64
            && request.params@ is Object && json_encoded(request.params@).len() <= 523_264),
{
}

/// A line is carried out or answered: it is carried out, with its own request, just
/// when it is JSON, a request, acceptable, not in flight yet, and there is room.
pub proof fn law_lines_are_carried_out_or_answered(
    line: Vec<u8>,
    envelope: Result<SessionRequest, String>,
    names: Seq<Seq<char>>,
    sequence: u64,
)
    ensures
        ({
            let step = intake(InputFrame::Line(line, envelope), names, sequence);
            let fits = json_parsed(line@) is Ok && envelope is Ok && request_failure(
                envelope->Ok_0,
            ) is None && !names.contains(envelope->Ok_0.id@) && names.len() < 64;
            &&& step is Answer <==> !fits
            &&& fits && envelope->Ok_0.method@ != "list_agents"@ ==> step == IntakeView::Run(
                envelope->Ok_0,
            )
            &&& fits && envelope->Ok_0.method@ == "list_agents"@ && sequence < u64::MAX ==> step
                == IntakeView::RunList(envelope->Ok_0, sequence)
            &&& fits && envelope->Ok_0.method@ == "list_agents"@ && sequence == u64::MAX ==> step
                == IntakeView::Stop(SessionFailureView::Plain("list request sequence exhausted"@))
        }),
{
}

/// The end of the input ends the session, and an error of the operating system ends
/// it with that error; nothing else but an exhausted count of lists does.
pub proof fn law_a_session_ends_with_its_input(
    frame: InputFrame,
    names: Seq<Seq<char>>,
    sequence: u64,
)
    ensures
        intake(frame, names, sequence) is End <==> frame is Eof,
        intake(frame, names, sequence) is Stop && sequence < u64::MAX ==> frame is Io && intake(
            frame,
            names,
            sequence,
        )->Stop_0 == SessionFailureView::Plain(frame->Io_0@),
        frame is Oversized ==> intake(frame, names, sequence) is Answer,
{
}

/// An answer given at once is an error, with no result and no candidates. One about
/// an acceptable request names that request, and says whether it is in flight
/// already or there are too many; every other is an error of the protocol.
pub proof fn law_answers_at_once_are_errors(
    frame: InputFrame,
    names: Seq<Seq<char>>,
    sequence: u64,
)
    requires
        intake(frame, names, sequence) is Answer,
    ensures
        ({
            let answer = intake(frame, names, sequence)->Answer_0;
            let acceptable = frame is Line && json_parsed(frame->Line_0@) is Ok && frame->Line_1
                is Ok && request_failure(frame->Line_1->Ok_0) is None;
            &&& answer.result is None
            &&& answer.error is Some
            &&& answer.error->0.candidates is None
            &&& acceptable ==> answer.id == frame->Line_1->Ok_0.id@
            &&& acceptable ==> answer.error->0.code == (if names.contains(answer.id) {
                "duplicate_id"@
            } else {
                "too_many_requests"@
            })
            &&& !acceptable ==> answer.error->0.code == "protocol_error"@
        }),
{
}

/// An error of the protocol names the request where its name can be told and is
/// within its bounds, and no request at all otherwise.
pub proof fn law_errors_name_the_request_where_they_can(
    line: Vec<u8>,
    envelope: Result<SessionRequest, String>,
    names: Seq<Seq<char>>,
    sequence: u64,
)
    requires
        json_parsed(line@) is Err || envelope is Err || request_failure(envelope->Ok_0) is Some,
    ensures
        ({
            let id = intake(
                InputFrame::Line(line, envelope),
                names,
                sequence,
            )->Answer_0.id;
            &&& json_parsed(line@) is Err ==> id == Seq::<char>::empty()
            &&& json_parsed(line@) is Ok && envelope is Ok ==> id == (if 0
                < envelope->Ok_0.id@.len() && utf8(envelope->Ok_0.id@).len() <= 256 {
                envelope->Ok_0.id@
            } else {
                Seq::<char>::empty()
            })
            &&& json_parsed(line@) is Ok && envelope is Err ==> match json_get_text(
                json_parsed(line@)->Ok_0,
                "id"@,
            ) {
                Some(told) => id == (if 0 < told.len() && utf8(told).len() <= 256 {
                    told
                } else {
                    Seq::<char>::empty()
                }),
                None => id == Seq::<char>::empty(),
            }
        }),
{
    reveal_strlit("");
    assert(""@ =~= Seq::<char>::empty());
}

/// What a request came to is told as it is: a result as the result, a failure with
/// its text. Only an error with candidates keeps its code and its candidates, and
/// only a failed acknowledgement is told as one.
pub proof fn law_outcomes_are_told_as_they_are(
    id: Seq<char>,
    outcome: Result<JsonView, SessionFailureView>,
)
    ensures
        ({
            let told = response_for(id, outcome);
            let error = told.error->0;
            &&& outcome is Ok ==> told.result == Some(outcome->Ok_0)
            &&& outcome is Err ==> match outcome->Err_0 {
                SessionFailureView::Plain(text) => error.message == text && error.code
                    == "request_failed"@ && error.candidates is None,
                SessionFailureView::Acknowledgement(text) => error.message == text && error.code
                    == "acknowledgement_failed"@ && error.candidates is None,
                SessionFailureView::Private(e) => error.message == e.message && (
                e.candidates.len() > 0 ==> error.code == e.code && error.candidates == Some(
                    e.candidates,
                )) && (e.candidates.len() == 0 ==> error.code == "request_failed"@
                    && error.candidates is None),
            }
        }),
{
}

/// A session is known by its harness and its pane, neither of them empty or longer than
/// 1024 bytes.
pub proof fn law_sessions_are_known_by_harness_and_pane(
    harness: Seq<char>,
    pane: Option<Seq<char>>,
)
    ensures
        identity_failure(harness, pane) is None <==> (0 < harness.len() && utf8(harness).len()
            <= 1024 && pane is Some && 0 < pane->0.len() && utf8(pane->0).len() <= 1024),
{
}

/// A session succeeds just when nothing failed, and its error is the first there is of its
/// own, of its requests and of its writer. An error of a request is kept until the end and
/// no later one takes its place; those after the session was cancelled do not count.
pub proof fn law_the_first_error_ends_a_session<E>(
    own: Result<(), E>,
    producer: Option<E>,
    writer: Result<(), E>,
    next: Option<E>,
    cancelled: bool,
)
    ensures
        run_result(own, producer, writer) is Ok <==> own is Ok && producer is None && writer is Ok,
        own is Err ==> run_result(own, producer, writer) == Err::<(), E>(own->Err_0),
        own is Ok && producer is Some ==> run_result(own, producer, writer) == Err::<(), E>(
            producer->0,
        ),
        own is Ok && producer is None && writer is Err ==> run_result(own, producer, writer)
            == Err::<(), E>(writer->Err_0),
        producer is Some ==> kept_error(producer, next, cancelled) == producer,
        producer is None && cancelled ==> kept_error(producer, next, cancelled) is None,
        producer is None && !cancelled ==> kept_error(producer, next, cancelled) == next,
{
}

/// Responses that are written together have consecutive places, from the next one on, and
/// are the ones that were waiting at these places.
pub proof fn law_lists_are_written_in_order(
    all: Map<u64, ResponseView>,
    start: u64,
    responses: Seq<SessionResponse>,
    i: int,
)
    requires
        consecutive(all, start, responses),
        0 <= i < responses.len(),
    ensures
        start + i < u64::MAX,
        all.contains_key((start + i) as u64),
        all[(start + i) as u64] == responses[i]@,
{
    assert(holds_at(all, start + i, responses[i]@));
}

/// What waits for its turn waits under its own place: each pending response is the one at
/// its place, and no other place is taken.
pub proof fn law_responses_wait_at_their_places(list: OrderedList, i: int, n: u64)
    requires
        list.ok(),
    ensures
        waiting(list.pending@).contains_key(n) <==> exists|k: int|
            0 <= k < list.pending@.len() && (#[trigger] list.pending@[k]).0 == n,
        0 <= i < list.pending@.len() ==> waiting(list.pending@)[list.pending@[i].0]
            == list.pending@[i].1@ && list.next_sequence < list.pending@[i].0,
{
    let pending = list.pending@;
    if 0 <= i < pending.len() {
        let n = pending[i].0;
        let k = choose|k: int| 0 <= k < pending.len() && (#[trigger] pending[k]).0 == n;
        assert(pending[i].0 == n);
        assert(k == i);
    }
}

/// No two requests in flight have the same name, and there are never more than 64.
pub proof fn law_requests_in_flight_are_bounded(requests: InFlight)
    requires
        requests.ok(),
    ensures
        requests.names().no_duplicates(),
        requests.names().len() <= 64,
{
}

} // verus!
