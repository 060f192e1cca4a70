use herdr_a2a_cli::broker_api::{
    action_result, broker_url, card_url, check_reply, check_time_left, decode_private_error,
    decode_refusal, delivery_identifier, list_agents, refuse_reply, remaining_wait_ms, reply_body,
    request_error_into_dyn, resolve_url, retry_by, settle_delivery, take_reply_chunk, task_action_url,
    transport_error, wait_for_agents, BrokerDirectoryAgent, RequestError,
};
use herdr_a2a_cli::framing::{
    operation_sse_boundary, BoundedLine, LineReader, StreamBuffer, StreamFrame,
    MAX_NDJSON_LINE_BYTES, MAX_PRIVATE_RESPONSE_BYTES,
};
use herdr_a2a_cli::json::{encode_json, parse_json, Json};
use herdr_a2a_cli::protocol::{
    check_session_identity, execute_request, first_producer_error, handle_request,
    parse_session_request, resolve_run_loop_result, InFlight, InputFrame, Intake, IntakeStep,
    OrderedList, PrivateBrokerError, ReserveIdError, SessionFailure, SessionMethod, SessionRequest,
    SessionResponse, MAX_IN_FLIGHT_REQUESTS,
};
use herdr_a2a_cli::recovery::{RecoveryError, RecoveryMode, TaskWaitMode};
use herdr_a2a_cli::rpc::{
    a2a_error_is_recoverable, a2a_error_recovery_mode, a2a_task_is_definitely_missing,
    check_announced_length, check_card_status, operation_response_kind, operation_sse_event,
    read_card, read_event_data, read_send_reply, read_single_event, read_task_reply,
    take_body_chunk, validate_a2a_http_status, A2AError, ContentType, OperationClientError,
    OperationResponseKind, SendReply, StreamEvent, TaskInfo, TaskPhase, TASK_NOT_FOUND,
};
use herdr_a2a_cli::tasks::{
    begin_operation, check_new_message, immediate_result, new_message_operation, new_task_names,
    operation_timeout_result, resume_message, run_task_attempt, send_configuration,
    send_wait_duration, task_result,
    validate_agent_target, AttemptEvent, AttemptMemory, AttemptNext, AttemptState, NewSendParams,
    ResumeSendParams, SendRequest, TaskOperation, DEFAULT_SEND_WAIT_MS,
};

fn field(value: &Json, name: &str) -> String {
    value.get_text(name).expect("a text field").clone()
}

#[test]
fn omitted_send_timeout_uses_the_sixty_second_default() {
    assert_eq!(
        std::time::Duration::from_millis(send_wait_duration(None).unwrap()),
        std::time::Duration::from_millis(DEFAULT_SEND_WAIT_MS)
    );
    assert_eq!(DEFAULT_SEND_WAIT_MS, 60_000);
}

#[test]
fn send_timeouts_outside_their_range_are_refused() {
    assert_eq!(send_wait_duration(Some(1_000)).unwrap(), 1_000);
    assert_eq!(send_wait_duration(Some(86_400_000)).unwrap(), 86_400_000);
    for refused in [0, 999, 86_400_001, u64::MAX] {
        assert_eq!(
            send_wait_duration(Some(refused)).unwrap_err().text(),
            "send wait timeout must be between 1000 and 86400000 milliseconds"
        );
    }
}

#[test]
fn task_id_action_urls_validate_before_appending_structured_segments() {
    let invalid: Result<(), String> = Err("task ID is invalid".to_owned());
    assert!(
        task_action_url("http://127.0.0.1:4312", "../unregister#", &invalid, "cancel").is_err()
    );
    assert_eq!(
        task_action_url("http://127.0.0.1:4312/", "task_A-1", &Ok(()), "reply").unwrap(),
        "http://127.0.0.1:4312/v1/tasks/task_A-1/reply"
    );
}

#[test]
fn urls_take_targets_as_single_segments() {
    assert_eq!(
        resolve_url("http://127.0.0.1:4312", "a/b c").unwrap(),
        "http://127.0.0.1:4312/v1/agents/resolve/a%2Fb%20c"
    );
    assert_eq!(
        resolve_url("mailto:someone", "x").unwrap_err().text(),
        "base URL cannot be a base"
    );
    assert!(resolve_url("not a url", "x").is_err());
    assert_eq!(broker_url("http://h", "/v1/renew"), "http://h/v1/renew");
    assert_eq!(
        card_url("http://h", "examiner"),
        "http://h/agents/examiner/.well-known/agent-card.json"
    );
}

#[test]
fn application_error_text_never_supplies_transport_provenance() {
    let error = OperationClientError::Application(A2AError {
        code: -32603,
        message: "application detail mentions HTTP request failed: but is not a transport failure"
            .to_owned(),
        details: None,
    });

    assert!(!a2a_error_is_recoverable(&error));
}

fn operation(wait_mode: TaskWaitMode, with_request: bool) -> TaskOperation {
    let request = SendRequest {
        text: "hello".to_owned(),
        metadata: None,
        task_id: "expected-task".to_owned(),
        context_id: "expected-context".to_owned(),
        tenant: "examiner".to_owned(),
        return_immediately: wait_mode == TaskWaitMode::Immediate,
    };
    TaskOperation {
        requested_agent: "examiner".to_owned(),
        agent: "examiner".to_owned(),
        tenant: "examiner".to_owned(),
        task_id: "expected-task".to_owned(),
        context_id: Some("expected-context".to_owned()),
        normalized_request: if with_request { Some(request) } else { None },
        wait_mode,
        deadline: 1_000_000,
    }
}

fn task(id: &str, state: TaskPhase) -> TaskInfo {
    TaskInfo {
        id: id.to_owned(),
        context_id: "expected-context".to_owned(),
        state,
        text: None,
        metadata: None,
    }
}

#[test]
fn immediate_result_rejects_mismatched_operation_identity() {
    let operation = operation(TaskWaitMode::Immediate, false);
    let response = SendReply::Task(task("different-task", TaskPhase::Working));

    assert_eq!(
        immediate_result(&operation, &response).unwrap_err().text(),
        "recovered task identity does not match the original operation"
    );
}

#[test]
fn immediate_result_needs_a_task() {
    let operation = operation(TaskWaitMode::Immediate, true);
    assert_eq!(
        immediate_result(&operation, &SendReply::Message).unwrap_err().text(),
        "nonblocking send returned no task identifiers"
    );
    let result =
        immediate_result(&operation, &SendReply::Task(task("expected-task", TaskPhase::Submitted)))
            .unwrap();
    assert_eq!(
        encode_json(&result),
        br#"{"agent":"examiner","conversation_id":"expected-context","state":"submitted","task_id":"expected-task"}"#
    );
}

#[test]
fn timeout_result_preserves_requested_and_resolved_agent_identity() {
    let operation = TaskOperation {
        requested_agent: "examiner".to_owned(),
        agent: "examiner-k7m2".to_owned(),
        tenant: "examiner-k7m2".to_owned(),
        task_id: "task-role-targeted".to_owned(),
        context_id: Some("conversation-role-targeted".to_owned()),
        normalized_request: None,
        wait_mode: TaskWaitMode::Terminal,
        deadline: 1_000_000,
    };

    let result = operation_timeout_result(&operation, false, &None, "broker_unavailable");

    assert_eq!(field(&result, "requested_agent"), "examiner");
    assert_eq!(field(&result, "agent"), "examiner-k7m2");
    assert_eq!(field(&result, "task_id"), "task-role-targeted");
    assert_eq!(field(&result, "conversation_id"), "conversation-role-targeted");
    assert_eq!(field(&result, "resume_task_id"), "task-role-targeted");
    assert_eq!(field(&result, "state"), "unknown");
}

#[test]
fn primary_loop_error_wins_over_producer_and_writer_cleanup_errors() {
    let result = resolve_run_loop_result(
        Err(std::io::Error::other("renewal failed")),
        Some(std::io::Error::other("producer failed")),
        Err(std::io::Error::other("writer failed")),
    );

    assert_eq!(result.unwrap_err().to_string(), "renewal failed");
}

#[test]
fn producer_errors_come_before_writer_errors() {
    assert_eq!(resolve_run_loop_result(Ok(()), Some("producer"), Err("writer")), Err("producer"));
    assert_eq!(resolve_run_loop_result(Ok(()), None, Err("writer")), Err("writer"));
    assert_eq!(resolve_run_loop_result::<&str>(Ok(()), None, Ok(())), Ok(()));
    assert_eq!(first_producer_error(Some("first"), Some("second"), false), Some("first"));
    assert_eq!(first_producer_error(None, Some("second"), true), None);
    assert_eq!(first_producer_error(None, Some("second"), false), Some("second"));
}

#[test]
fn a_released_request_id_is_reserved_again() {
    let mut ids = InFlight::new();
    assert_eq!(ids.reserve_id("reuse"), Ok(()));
    assert_eq!(ids.reserve_id("reuse"), Err(ReserveIdError::Duplicate));
    ids.release_id("reuse");
    assert_eq!(ids.reserve_id("reuse"), Ok(()));
    ids.release_id("absent");
    assert_eq!(ids.ids, vec!["reuse".to_owned()]);
}

#[test]
fn duplicates_are_told_before_a_full_session() {
    let mut ids = InFlight::new();
    for index in 0..MAX_IN_FLIGHT_REQUESTS {
        assert_eq!(ids.reserve_id(&format!("id-{index}")), Ok(()));
    }
    assert_eq!(ids.reserve_id("id-0"), Err(ReserveIdError::Duplicate));
    assert_eq!(ids.reserve_id("another"), Err(ReserveIdError::Full));
}

fn request(id: &str, method: &str) -> SessionRequest {
    SessionRequest {
        id: id.to_owned(),
        method: method.to_owned(),
        params: Json::Object(Vec::new()),
    }
}

fn error_of(response: &SessionResponse) -> (String, String, String) {
    let error = response.error.as_ref().expect("an error");
    (response.id.clone(), error.code.clone(), error.message.clone())
}

#[test]
fn request_lines_fail_with_the_name_that_could_be_told() {
    let broken = parse_session_request(b"{", Err("unused".to_owned())).unwrap_err();
    let (id, code, message) = error_of(&broken);
    assert_eq!((id.as_str(), code.as_str()), ("", "protocol_error"));
    assert!(message.starts_with("invalid JSON request: EOF"));

    let wrong =
        parse_session_request(br#"{"id":"r1"}"#, Err("missing field `method`".to_owned()))
            .unwrap_err();
    assert_eq!(
        error_of(&wrong),
        (
            "r1".to_owned(),
            "protocol_error".to_owned(),
            "invalid request envelope: missing field `method`".to_owned()
        )
    );

    let line = br#"{"id":"r1","method":"","params":{}}"#;
    let nameless = parse_session_request(line, Ok(request("r1", ""))).unwrap_err();
    assert_eq!(error_of(&nameless).2, "request method must be a non-empty bounded string");
    let empty = parse_session_request(line, Ok(request("", "status"))).unwrap_err();
    assert_eq!(error_of(&empty).2, "request ID must be a non-empty bounded string");
    let long = parse_session_request(line, Ok(request(&"x".repeat(257), "status"))).unwrap_err();
    assert_eq!(error_of(&long).0, "");
    let mut array = request("r1", "status");
    array.params = Json::Array(Vec::new());
    let shaped = parse_session_request(line, Ok(array)).unwrap_err();
    assert_eq!(error_of(&shaped).2, "request params must be a bounded object");
    let mut large = request("r1", "status");
    large.params =
        Json::Object(vec![("t".to_owned(), Json::Text("x".repeat(511 * 1024)))]);
    assert!(parse_session_request(line, Ok(large)).is_err());
    assert_eq!(parse_session_request(line, Ok(request("r1", "status"))).unwrap().id, "r1");
}

#[test]
fn intake_that_stops_has_taken_the_name() {
    let mut intake = Intake::new();
    let line = br#"{"id":"r1","method":"list_agents","params":{}}"#.to_vec();
    let frame = |id: &str, method: &str| InputFrame::Line(line.clone(), Ok(request(id, method)));
    intake.list_sequence = u64::MAX;
    assert!(matches!(
        intake.accept(frame("r1", "list_agents")),
        IntakeStep::Stop(failure) if failure.text() == "list request sequence exhausted"
    ));
    assert!(matches!(
        intake.accept(frame("r1", "status")),
        IntakeStep::Answer(response) if error_of(&response).1 == "duplicate_id"
    ));
    assert!(matches!(intake.accept(InputFrame::Io("gone".to_owned())), IntakeStep::Stop(_)));
    assert!(matches!(intake.accept(frame("r2", "status")), IntakeStep::Run(_)));
}

#[test]
fn intake_answers_or_runs() {
    let mut intake = Intake::new();
    let line = br#"{"id":"r1","method":"list_agents","params":{}}"#.to_vec();
    let frame = |id: &str, method: &str| InputFrame::Line(line.clone(), Ok(request(id, method)));
    assert!(matches!(
        intake.accept(frame("r1", "list_agents")),
        IntakeStep::RunList(request, 0) if request.id == "r1"
    ));
    assert!(matches!(
        intake.accept(frame("r2", "list_agents")),
        IntakeStep::RunList(_, 1)
    ));
    assert!(matches!(intake.accept(frame("r3", "status")), IntakeStep::Run(_)));
    match intake.accept(frame("r1", "status")) {
        IntakeStep::Answer(response) => assert_eq!(
            error_of(&response),
            (
                "r1".to_owned(),
                "duplicate_id".to_owned(),
                "request ID is already in flight".to_owned()
            )
        ),
        other => panic!("{other:?}"),
    }
    for index in 3..MAX_IN_FLIGHT_REQUESTS {
        assert!(matches!(
            intake.accept(frame(&format!("more-{index}"), "status")),
            IntakeStep::Run(_)
        ));
    }
    match intake.accept(frame("one-too-many", "status")) {
        IntakeStep::Answer(response) => assert_eq!(error_of(&response).1, "too_many_requests"),
        other => panic!("{other:?}"),
    }
    match intake.accept(InputFrame::Oversized) {
        IntakeStep::Answer(response) => assert_eq!(
            error_of(&response).2,
            "NDJSON request exceeds the bounded envelope size"
        ),
        other => panic!("{other:?}"),
    }
    assert!(matches!(intake.accept(InputFrame::Eof), IntakeStep::End));
    assert!(matches!(
        intake.accept(InputFrame::Io("broken".to_owned())),
        IntakeStep::Stop(failure) if failure.text() == "broken"
    ));

    let mut exhausted = Intake::new();
    exhausted.list_sequence = u64::MAX;
    assert!(matches!(
        exhausted.accept(frame("last", "list_agents")),
        IntakeStep::Stop(failure) if failure.text() == "list request sequence exhausted"
    ));
}

#[test]
fn list_responses_are_written_in_the_order_of_their_requests() {
    let mut list = OrderedList::new();
    let response = |id: &str| SessionResponse::success(id.to_owned(), Json::Null);
    assert!(list.submit(2, response("c")).is_empty());
    assert!(list.submit(1, response("b")).is_empty());
    let released: Vec<String> =
        list.submit(0, response("a")).into_iter().map(|response| response.id).collect();
    assert_eq!(released, ["a", "b", "c"]);
    assert_eq!(list.submit(3, response("d")).len(), 1);
    assert_eq!(list.next_sequence, 4);
}

#[test]
fn methods_have_their_names() {
    assert_eq!(handle_request("list_agents").unwrap(), SessionMethod::ListAgents);
    assert_eq!(handle_request("cancel_task").unwrap(), SessionMethod::CancelTask);
    assert_eq!(handle_request("managed_remove").unwrap(), SessionMethod::ManagedRemove);
    assert_eq!(handle_request("other").unwrap_err().text(), "unknown session method");
}

#[test]
fn failures_become_responses_of_their_own_kind() {
    let id = || "r1".to_owned();
    let success = execute_request(id(), Ok(Json::Bool(true)));
    assert!(success.error.is_none());
    assert!(matches!(success.result, Some(Json::Bool(true))));
    let acknowledged =
        execute_request(id(), Err(SessionFailure::Acknowledgement("late".to_owned())));
    assert_eq!(error_of(&acknowledged).1, "acknowledgement_failed");
    let private = |candidates: Vec<String>| {
        SessionFailure::Private(PrivateBrokerError {
            code: "ambiguous_role".to_owned(),
            message: "several agents have that role".to_owned(),
            candidates,
        })
    };
    let ambiguous =
        execute_request(id(), Err(private(vec!["a-1".to_owned(), "a-2".to_owned()])));
    assert_eq!(error_of(&ambiguous).1, "ambiguous_role");
    assert_eq!(
        ambiguous.error.unwrap().candidates,
        Some(vec!["a-1".to_owned(), "a-2".to_owned()])
    );
    let plain = execute_request(id(), Err(private(Vec::new())));
    assert_eq!(
        error_of(&plain),
        (id(), "request_failed".to_owned(), "several agents have that role".to_owned())
    );
    assert_eq!(
        error_of(&execute_request(id(), Err(SessionFailure::plain("no")))).2,
        "no"
    );
}

#[test]
fn session_identity_is_bounded() {
    assert!(check_session_identity("pi-session-1", Some("w1:p1")).is_ok());
    assert_eq!(
        check_session_identity("", Some("w1:p1")).unwrap_err().text(),
        "--harness-session-id must be non-empty and bounded"
    );
    assert_eq!(
        check_session_identity("s", None).unwrap_err().text(),
        "HERDR_PANE_ID is required"
    );
    assert_eq!(
        check_session_identity("s", Some(&"x".repeat(1025))).unwrap_err().text(),
        "HERDR_PANE_ID must be non-empty and bounded"
    );
}

fn read_lines(pieces: &[&[u8]]) -> Vec<String> {
    let mut reader = LineReader::new();
    let mut out = Vec::new();
    for piece in pieces {
        let mut rest = *piece;
        while !rest.is_empty() {
            let (consumed, line) = reader.feed(rest);
            rest = &rest[consumed..];
            if let Some(line) = line {
                out.push(show(line));
            }
        }
    }
    out.push(show(reader.finish()));
    out
}

fn show(line: BoundedLine) -> String {
    match line {
        BoundedLine::Line(bytes) => format!("line {}", String::from_utf8(bytes).unwrap()),
        BoundedLine::Oversized => "oversized".to_owned(),
        BoundedLine::Eof => "eof".to_owned(),
    }
}

#[test]
fn lines_end_at_line_feeds_however_they_are_cut() {
    let whole = read_lines(&[b"one\r\ntwo\n\nthree"]);
    assert_eq!(whole, ["line one", "line two", "line ", "line three"]);
    assert_eq!(read_lines(&[b"on", b"e\r", b"\ntwo\n", b"\nthr", b"ee"]), whole);
    assert_eq!(read_lines(&[b"end\n"]), ["line end", "eof"]);
}

#[test]
fn a_line_over_its_bound_is_skipped_whole() {
    let long = vec![b'x'; MAX_NDJSON_LINE_BYTES + 1];
    assert_eq!(read_lines(&[&long, b"more\nnext\n"]), ["oversized", "line next", "eof"]);
    let exact = vec![b'x'; MAX_NDJSON_LINE_BYTES];
    let mut reader = LineReader::new();
    assert!(reader.feed(&exact).1.is_none());
    assert!(matches!(
        reader.feed(b"\n").1,
        Some(BoundedLine::Line(line)) if line.len() == MAX_NDJSON_LINE_BYTES
    ));
    assert_eq!(read_lines(&[&long]), ["oversized"]);
}

fn task_sse_event(task_id: &str, padding_bytes: usize) -> Vec<u8> {
    let event = format!(
        r#"{{"jsonrpc":"2.0","id":"raw-parser-test","result":{{"task":{{"id":"{task_id}","contextId":"raw-parser-context","status":{{"state":"TASK_STATE_WORKING"}},"metadata":{{"padding":"{}"}}}}}}}}"#,
        "x".repeat(padding_bytes)
    );
    format!("data: {event}\n\n").into_bytes()
}

fn stream_task_ids(chunks: Vec<Vec<u8>>) -> Vec<Result<String, String>> {
    let mut buffer = StreamBuffer::new();
    let mut out = Vec::new();
    for chunk in chunks {
        for frame in buffer.feed(&chunk) {
            match frame {
                StreamFrame::TooLong => {
                    out.push(Err(herdr_a2a_cli::rpc::oversized_event().text()));
                }
                StreamFrame::Event(bytes) => match operation_sse_event(&bytes) {
                    Some(Ok(StreamEvent::Task(task))) => out.push(Ok(task.id)),
                    Some(Ok(other)) => out.push(Ok(format!("{other:?}"))),
                    Some(Err(error)) => out.push(Err(error.text())),
                    None => {}
                },
            }
        }
    }
    out
}

#[test]
fn sse_chunk_may_contain_multiple_individually_bounded_events() {
    let first = task_sse_event("first-task", MAX_PRIVATE_RESPONSE_BYTES / 2 + 1_024);
    let second = task_sse_event("second-task", MAX_PRIVATE_RESPONSE_BYTES / 2 + 1_024);
    assert!(first.len() <= MAX_PRIVATE_RESPONSE_BYTES);
    assert!(second.len() <= MAX_PRIVATE_RESPONSE_BYTES);
    let chunk = [first, second].concat();
    assert!(chunk.len() > MAX_PRIVATE_RESPONSE_BYTES);
    assert_eq!(
        stream_task_ids(vec![chunk]),
        [Ok("first-task".to_owned()), Ok("second-task".to_owned())]
    );
}

#[test]
fn sse_rejects_one_complete_event_over_the_response_bound() {
    let oversized = task_sse_event("oversized-task", MAX_PRIVATE_RESPONSE_BYTES + 1);
    let events = stream_task_ids(vec![oversized]);
    assert_eq!(events.len(), 1);
    assert!(events[0].as_ref().unwrap_err().contains("stream event exceeds"));
}

#[test]
fn sse_rejects_one_incomplete_pending_event_over_the_response_bound() {
    let mut oversized = task_sse_event("oversized-pending-task", MAX_PRIVATE_RESPONSE_BYTES + 1);
    oversized.truncate(oversized.len() - 2);
    assert!(oversized.len() > MAX_PRIVATE_RESPONSE_BYTES);
    assert!(!oversized.ends_with(b"\n\n"));
    let events = stream_task_ids(vec![oversized]);
    assert!(events[0].as_ref().unwrap_err().contains("stream event exceeds"));
}

#[test]
fn sse_delimiter_split_across_chunks_preserves_bound_and_decoding() {
    let event = task_sse_event("split-task", 32);
    let delimiter_tail = event.len() - 1;
    let chunks = vec![event[..delimiter_tail].to_vec(), event[delimiter_tail..].to_vec()];
    assert_eq!(stream_task_ids(chunks), [Ok("split-task".to_owned())]);
}

#[test]
fn sse_boundaries_are_empty_lines_of_any_kind() {
    assert_eq!(operation_sse_boundary(b"a\n\nb"), Some((1, 3)));
    assert_eq!(operation_sse_boundary(b"a\r\rb"), Some((1, 3)));
    assert_eq!(operation_sse_boundary(b"a\r\n\r\nb"), Some((1, 5)));
    assert_eq!(operation_sse_boundary(b"a\r\n\r"), None);
    assert_eq!(operation_sse_boundary(b""), None);
}

#[test]
fn sse_data_is_joined_by_line_feeds() {
    assert_eq!(read_event_data("data: a\nevent: x\ndata:b\r\n"), "a\nb");
    assert_eq!(read_event_data("data:\ndata: b"), "b");
    assert_eq!(read_event_data(": comment"), "");
    assert!(operation_sse_event(b": comment").is_none());
    let broken = operation_sse_event(b"data: \xff").unwrap().unwrap_err();
    assert_eq!(
        broken.text(),
        "A2A stream body is not UTF-8: invalid utf-8 sequence of 1 bytes from index 6"
    );
    assert!(matches!(
        operation_sse_event(b"data: {").unwrap(),
        Err(OperationClientError::Connection(text)) if text.starts_with("A2A stream body failed: ")
    ));
}

#[test]
fn replies_of_tasks_are_read() {
    let reply = br#"{"jsonrpc":"2.0","id":"x","result":{"id":"t1","contextId":"c1","status":{"state":"TASK_STATE_COMPLETED","message":{"messageId":"m","role":"ROLE_AGENT","parts":[{"text":"done"}],"metadata":{"k":1}}}}}"#;
    let found = read_task_reply(reply).unwrap();
    assert_eq!(found.id, "t1");
    assert_eq!(found.context_id, "c1");
    assert_eq!(found.state, TaskPhase::Completed);
    assert_eq!(found.text.as_deref(), Some("done"));
    assert_eq!(
        encode_json(&task_result(&found)),
        br#"{"conversation_id":"c1","metadata":{"k":1},"state":"completed","task_id":"t1","text":"done"}"#
    );
    assert_eq!(
        encode_json(&task_result(&task("t2", TaskPhase::Failed))),
        br#"{"conversation_id":"expected-context","metadata":{},"state":"failed","task_id":"t2","text":null}"#
    );
    assert!(matches!(
        read_task_reply(br#"{"jsonrpc":"2.0","id":"x","result":{"id":1}}"#),
        Err(OperationClientError::Protocol(text)) if text.starts_with("A2A result is invalid: ")
    ));
    assert!(matches!(
        read_task_reply(br#"{"jsonrpc":"2.0","id":"x"}"#),
        Err(OperationClientError::Protocol(text)) if text == "A2A JSON-RPC response has no result"
    ));
    assert!(matches!(
        read_task_reply(b"<html>"),
        Err(OperationClientError::Connection(text)) if text.starts_with("A2A response body failed: ")
    ));
}

#[test]
fn missing_tasks_and_lost_registrations_are_told_apart() {
    assert_eq!(TASK_NOT_FOUND, a2a::error_code::TASK_NOT_FOUND);
    let missing = read_task_reply(
        br#"{"jsonrpc":"2.0","id":"x","error":{"code":-32001,"message":"task not found"}}"#,
    )
    .unwrap_err();
    assert!(a2a_task_is_definitely_missing(&missing));
    assert_eq!(a2a_error_recovery_mode(&missing), None);
    let lost = read_task_reply(
        br#"{"jsonrpc":"2.0","id":"x","error":{"code":-32001,"message":"gone","data":[{"a":1},{"@type":"type.herdr.dev/herdr.a2a.RegistrationAuthLost"}]}}"#,
    )
    .unwrap_err();
    assert!(!a2a_task_is_definitely_missing(&lost));
    assert_eq!(a2a_error_recovery_mode(&lost), Some(RecoveryMode::RegistrationRefresh));
    assert_eq!(
        a2a_error_recovery_mode(&OperationClientError::Deadline("late")),
        Some(RecoveryMode::BrokerReplacement)
    );
    match read_task_reply(
        br#"{"jsonrpc":"2.0","id":"x","error":{"code":-32603,"message":"m","data":[1,{"reason":"r"}]}}"#,
    )
    .unwrap_err()
    {
        OperationClientError::Application(error) => {
            assert_eq!(error.code, -32603);
            assert_eq!(error.details.unwrap().len(), 1);
        }
        other => panic!("{other:?}"),
    }
}

#[test]
fn replies_to_messages_and_single_events_are_read() {
    let sent = br#"{"jsonrpc":"2.0","id":"x","result":{"task":{"id":"t1","contextId":"c1","status":{"state":"TASK_STATE_SUBMITTED"}}}}"#;
    assert!(matches!(
        read_send_reply(sent),
        Ok(SendReply::Task(task)) if task.state == TaskPhase::Submitted
    ));
    let message = br#"{"jsonrpc":"2.0","id":"x","result":{"message":{"messageId":"m","role":"ROLE_AGENT","parts":[]}}}"#;
    assert!(matches!(read_send_reply(message), Ok(SendReply::Message)));
    assert!(matches!(read_single_event(message), Ok(StreamEvent::Message)));
    let update = br#"{"jsonrpc":"2.0","id":"x","result":{"statusUpdate":{"taskId":"t1","contextId":"c1","status":{"state":"TASK_STATE_WORKING"}}}}"#;
    assert!(matches!(
        read_single_event(update),
        Ok(StreamEvent::StatusUpdate { task_id, state: TaskPhase::Working }) if task_id == "t1"
    ));
    assert!(matches!(
        read_single_event(b"no"),
        Err(OperationClientError::Connection(text))
            if text.starts_with("A2A JSON-RPC response body failed: ")
    ));
}

#[test]
fn every_state_of_a_task_has_its_name() {
    for (wire, phase, name) in [
        ("TASK_STATE_UNSPECIFIED", TaskPhase::Unspecified, "unspecified"),
        ("TASK_STATE_SUBMITTED", TaskPhase::Submitted, "submitted"),
        ("TASK_STATE_WORKING", TaskPhase::Working, "working"),
        ("TASK_STATE_COMPLETED", TaskPhase::Completed, "completed"),
        ("TASK_STATE_FAILED", TaskPhase::Failed, "failed"),
        ("TASK_STATE_CANCELED", TaskPhase::Canceled, "canceled"),
        ("TASK_STATE_INPUT_REQUIRED", TaskPhase::InputRequired, "input_required"),
        ("TASK_STATE_REJECTED", TaskPhase::Rejected, "rejected"),
        ("TASK_STATE_AUTH_REQUIRED", TaskPhase::AuthRequired, "auth_required"),
    ] {
        let reply = format!(
            r#"{{"jsonrpc":"2.0","id":"x","result":{{"id":"t","contextId":"c","status":{{"state":"{wire}"}}}}}}"#
        );
        let found = read_task_reply(reply.as_bytes()).unwrap();
        assert_eq!(found.state, phase);
        assert_eq!(field(&task_result(&found), "state"), name);
    }
}

fn card(interfaces: &str) -> Vec<u8> {
    format!(
        r#"{{"name":"examiner","description":"d","version":"1","supportedInterfaces":{interfaces},"capabilities":{{}},"defaultInputModes":[],"defaultOutputModes":[],"skills":[]}}"#
    )
    .into_bytes()
}

#[test]
fn cards_lead_to_the_endpoint_of_their_tenant() {
    let good = card(
        r#"[{"url":"http://g","protocolBinding":"GRPC","protocolVersion":"1.0"},{"url":"http://127.0.0.1/jsonrpc","protocolBinding":"JSONRPC","protocolVersion":"1.0","tenant":"examiner"}]"#,
    );
    assert_eq!(read_card(&good, "examiner").unwrap(), "http://127.0.0.1/jsonrpc");
    assert_eq!(
        read_card(&good, "other").unwrap_err().text(),
        "agent card tenant changed during operation"
    );
    let no_tenant =
        card(r#"[{"url":"http://x","protocolBinding":"JSONRPC","protocolVersion":"1.0"}]"#);
    assert_eq!(read_card(&no_tenant, "t").unwrap_err().text(), "agent card has no tenant");
    assert_eq!(
        read_card(&card("[]"), "t").unwrap_err().text(),
        "agent card has no JSON-RPC interface"
    );
    assert!(matches!(
        read_card(b"{}", "t"),
        Err(OperationClientError::Connection(text))
            if text.starts_with("Agent Card response body failed: ")
    ));
}

#[test]
fn agent_statuses_lead_to_waiting_recovery_or_failure() {
    assert!(validate_a2a_http_status(200).is_ok());
    assert!(matches!(
        validate_a2a_http_status(401),
        Err(OperationClientError::Connection(text))
            if text == "A2A connection credentials were rejected with HTTP 401 Unauthorized"
    ));
    assert!(matches!(
        validate_a2a_http_status(500),
        Err(OperationClientError::Protocol(text))
            if text == "A2A endpoint returned HTTP 500 Internal Server Error"
    ));
    assert!(matches!(
        check_card_status("examiner", 404),
        Err(OperationClientError::AgentUnavailable(text))
            if text == "agent card for examiner is temporarily unavailable with HTTP 404 Not Found"
    ));
    assert!(check_card_status("examiner", 204).is_ok());
}

#[test]
fn bodies_stop_at_their_bound() {
    assert!(check_announced_length(Some(MAX_PRIVATE_RESPONSE_BYTES as u64)).is_ok());
    assert!(
        check_announced_length(Some(MAX_PRIVATE_RESPONSE_BYTES as u64 + 1))
            .unwrap_err()
            .text()
            .contains("response body exceeds")
    );
    let mut body = vec![b' '; MAX_PRIVATE_RESPONSE_BYTES - 1];
    assert!(take_body_chunk(&mut body, b" ").is_ok());
    assert!(take_body_chunk(&mut body, b" ").is_err());
    assert_eq!(body.len(), MAX_PRIVATE_RESPONSE_BYTES);
    assert!(matches!(
        take_reply_chunk(&mut body, b" "),
        Err(RequestError::Final(failure)) if failure.text() == "broker response exceeded its bound"
    ));
}

#[test]
fn content_types_say_how_events_come() {
    let kind = |text: &str| operation_response_kind(&ContentType::Text(text.to_owned()));
    assert_eq!(
        kind(" Text/Event-Stream ; charset=utf-8").unwrap(),
        OperationResponseKind::EventStream
    );
    assert_eq!(kind("application/json").unwrap(), OperationResponseKind::Json);
    assert_eq!(kind("Application/Problem+JSON").unwrap(), OperationResponseKind::Json);
    assert_eq!(
        kind("text/html").unwrap_err().text(),
        "A2A streaming response has unsupported Content-Type text/html"
    );
    assert_eq!(
        operation_response_kind(&ContentType::Absent).unwrap_err().text(),
        "A2A streaming response has no Content-Type"
    );
    assert_eq!(
        operation_response_kind(&ContentType::Invalid("bad".to_owned())).unwrap_err().text(),
        "A2A streaming response Content-Type is invalid: bad"
    );
}

fn fresh() -> AttemptMemory {
    AttemptMemory { task_confirmed: false, last_task: None, resend_attempted: false }
}

fn state_of(next: &AttemptNext) -> AttemptState {
    match next {
        AttemptNext::Go { state, .. } => *state,
        other => panic!("{other:?}"),
    }
}

fn missing() -> OperationClientError {
    OperationClientError::Application(A2AError {
        code: TASK_NOT_FOUND,
        message: "task not found".to_owned(),
        details: None,
    })
}

#[test]
fn a_missing_task_is_sent_again_once() {
    let op = operation(TaskWaitMode::Terminal, true);
    let (memory, next) = begin_operation(&op, &Ok(()));
    assert_eq!(state_of(&next), AttemptState::Send);
    let lost = AttemptEvent::Opened(Some(Err(OperationClientError::Connection(
        "reset".to_owned(),
    ))));
    let (memory, next) = run_task_attempt(&op, memory, AttemptState::Send, lost);
    let recover = AttemptState::Recover { mode: RecoveryMode::BrokerReplacement };
    assert_eq!(state_of(&next), recover);
    let (memory, next) =
        run_task_attempt(&op, memory, recover, AttemptEvent::Recovered(Ok(())));
    let resolve = AttemptState::Resolve { retry_delay_ms: 50 };
    assert_eq!(state_of(&next), resolve);
    let (memory, next) =
        run_task_attempt(&op, memory, resolve, AttemptEvent::Client(Ok(()), 10));
    assert_eq!(state_of(&next), AttemptState::Inspect);
    let (memory, next) = run_task_attempt(
        &op,
        memory,
        AttemptState::Inspect,
        AttemptEvent::Fetched(Some(Err(missing()))),
    );
    assert_eq!(state_of(&next), AttemptState::Send);
    assert!(memory.resend_attempted);
    let (_, next) = run_task_attempt(
        &op,
        memory,
        AttemptState::Inspect,
        AttemptEvent::Fetched(Some(Err(missing()))),
    );
    assert!(matches!(next, AttemptNext::Fail(failure) if failure.text() == "task not found"));
}

#[test]
fn a_resumed_task_is_never_sent() {
    let op = operation(TaskWaitMode::Terminal, false);
    let (memory, next) = begin_operation(&op, &Ok(()));
    assert_eq!(state_of(&next), AttemptState::Inspect);
    let (_, next) = run_task_attempt(
        &op,
        memory,
        AttemptState::Inspect,
        AttemptEvent::Fetched(Some(Err(missing()))),
    );
    assert!(matches!(next, AttemptNext::Fail(_)));
    let (_, next) = begin_operation(
        &op,
        &Err(OperationClientError::AgentUnavailable("gone".to_owned())),
    );
    assert!(matches!(next, AttemptNext::Fail(failure) if failure.text() == "gone"));
}

#[test]
fn a_stream_ends_with_its_terminal_task() {
    let op = operation(TaskWaitMode::Terminal, true);
    let update = AttemptEvent::Streamed(Some(Ok(Some(StreamEvent::StatusUpdate {
        task_id: "expected-task".to_owned(),
        state: TaskPhase::Working,
    }))));
    let (memory, next) = run_task_attempt(&op, fresh(), AttemptState::Stream, update);
    assert_eq!(state_of(&next), AttemptState::Stream);
    assert!(memory.task_confirmed);
    let done = AttemptEvent::Streamed(Some(Ok(Some(StreamEvent::Task(task(
        "expected-task",
        TaskPhase::Completed,
    ))))));
    let (_, next) = run_task_attempt(&op, memory, AttemptState::Stream, done);
    match next {
        AttemptNext::Done(value) => assert_eq!(field(&value, "task_id"), "expected-task"),
        other => panic!("{other:?}"),
    }
    let foreign = AttemptEvent::Streamed(Some(Ok(Some(StreamEvent::Task(task(
        "other-task",
        TaskPhase::Completed,
    ))))));
    let (_, next) = run_task_attempt(&op, fresh(), AttemptState::Stream, foreign);
    assert!(matches!(next, AttemptNext::Fail(_)));
}

#[test]
fn a_lost_stream_is_followed_to_the_task() {
    let op = operation(TaskWaitMode::Terminal, true);
    let (memory, next) = run_task_attempt(
        &op,
        fresh(),
        AttemptState::Stream,
        AttemptEvent::Streamed(Some(Ok(None))),
    );
    let check = AttemptState::CheckReplacement { resubscribe_if_working: true };
    assert_eq!(state_of(&next), check);
    let (memory, next) = run_task_attempt(
        &op,
        memory,
        check,
        AttemptEvent::Replacement(Err(RecoveryError::Unavailable("busy".to_owned()))),
    );
    let last = AttemptState::FinalGet { resubscribe_if_working: true };
    assert_eq!(state_of(&next), last);
    let working = AttemptEvent::Fetched(Some(Ok(task("expected-task", TaskPhase::Working))));
    let (memory, next) = run_task_attempt(&op, memory, last, working);
    assert_eq!(state_of(&next), AttemptState::Subscribe);
    let (memory, next) = run_task_attempt(
        &op,
        memory,
        AttemptState::Subscribe,
        AttemptEvent::Opened(Some(Ok(()))),
    );
    assert_eq!(state_of(&next), AttemptState::Subscription);
    let (memory, next) = run_task_attempt(
        &op,
        memory,
        AttemptState::Subscription,
        AttemptEvent::Streamed(Some(Err(OperationClientError::Connection("cut".to_owned())))),
    );
    assert_eq!(
        state_of(&next),
        AttemptState::CheckReplacement { resubscribe_if_working: false }
    );
    let still = AttemptEvent::Fetched(Some(Ok(task("expected-task", TaskPhase::Working))));
    let (_, next) = run_task_attempt(
        &op,
        memory,
        AttemptState::FinalGet { resubscribe_if_working: false },
        still,
    );
    match next {
        AttemptNext::Done(value) => assert_eq!(
            encode_json(&value),
            br#"{"agent":"examiner","conversation_id":"expected-context","resume_task_id":"expected-task","state":"working","stream_lost":true,"task_confirmed":true,"task_id":"expected-task","task_reachable":true}"#
        ),
        other => panic!("{other:?}"),
    }
}

#[test]
fn time_that_runs_out_leaves_what_is_known() {
    let op = operation(TaskWaitMode::Terminal, true);
    let (_, next) = run_task_attempt(
        &op,
        fresh(),
        AttemptState::Recover { mode: RecoveryMode::BrokerReplacement },
        AttemptEvent::Recovered(Err(RecoveryError::Deadline)),
    );
    match next {
        AttemptNext::Done(value) => {
            assert_eq!(field(&value, "recovery_reason"), "broker_unavailable");
            assert_eq!(field(&value, "state"), "unknown");
            assert!(matches!(value.get("task_reachable"), Some(Json::Bool(false))));
        }
        other => panic!("{other:?}"),
    }
    let known = AttemptMemory {
        task_confirmed: true,
        last_task: Some(task("expected-task", TaskPhase::InputRequired)),
        resend_attempted: false,
    };
    let (_, next) =
        run_task_attempt(&op, known, AttemptState::Inspect, AttemptEvent::Fetched(None));
    match next {
        AttemptNext::Done(value) => {
            assert_eq!(field(&value, "recovery_reason"), "deadline_expired");
            assert_eq!(field(&value, "state"), "input_required");
            assert!(matches!(value.get("timed_out"), Some(Json::Bool(true))));
        }
        other => panic!("{other:?}"),
    }
}

#[test]
fn an_absent_agent_is_waited_for_with_growing_patience() {
    let op = operation(TaskWaitMode::Terminal, true);
    let mut delay = 50;
    for expected in [100, 200, 400, 800, 1_000, 1_000] {
        let absent = Err(OperationClientError::AgentUnavailable("gone".to_owned()));
        let state = AttemptState::Resolve { retry_delay_ms: delay };
        match run_task_attempt(&op, fresh(), state, AttemptEvent::Client(absent, 10_000_000)).1 {
            AttemptNext::Go { state: AttemptState::Resolve { retry_delay_ms }, wait } => {
                assert_eq!(wait, delay * 1_000);
                assert_eq!(retry_delay_ms, expected);
                delay = retry_delay_ms;
            }
            other => panic!("{other:?}"),
        }
    }
    let absent = || Err(OperationClientError::AgentUnavailable("gone".to_owned()));
    let state = AttemptState::Resolve { retry_delay_ms: 1_000 };
    assert!(matches!(
        run_task_attempt(&op, fresh(), state, AttemptEvent::Client(absent(), 7)).1,
        AttemptNext::Go { wait: 7, .. }
    ));
    match run_task_attempt(&op, fresh(), state, AttemptEvent::Client(absent(), 0)).1 {
        AttemptNext::Done(value) => {
            assert_eq!(field(&value, "recovery_reason"), "agent_unavailable");
        }
        other => panic!("{other:?}"),
    }
}

fn new_params(wait: bool) -> NewSendParams {
    NewSendParams {
        agent: "examiner".to_owned(),
        text: "please look".to_owned(),
        metadata: Json::Object(Vec::new()),
        conversation_id: None,
        wait,
        timeout_ms: None,
    }
}

#[test]
fn new_messages_are_checked_in_order() {
    assert_eq!(check_new_message(&new_params(true), true, 100).unwrap(), 60_000);
    assert_eq!(
        check_new_message(&new_params(true), true, 3).unwrap_err().text(),
        "message text exceeds the size limit"
    );
    let mut params = new_params(true);
    params.conversation_id = Some("../x".to_owned());
    assert_eq!(
        check_new_message(&params, false, 100).unwrap_err().text(),
        "conversation ID is invalid"
    );
    params.agent = "a\u{7}".to_owned();
    assert_eq!(
        check_new_message(&params, false, 100).unwrap_err().text(),
        "agent target must be non-empty, bounded, and control-free"
    );
    assert!(validate_agent_target("examiner").is_ok());
    assert!(validate_agent_target(&"x".repeat(1025)).is_err());
}

#[test]
fn a_new_message_is_bound_to_the_canonical_agent() {
    let op = new_message_operation(
        new_params(false),
        "examiner-k7m2",
        true,
        1_000,
        "t1".to_owned(),
        "c1".to_owned(),
        5,
    )
    .unwrap();
    assert_eq!(op.requested_agent, "examiner");
    assert_eq!(op.agent, "examiner-k7m2");
    assert_eq!(op.wait_mode, TaskWaitMode::Immediate);
    let request = op.normalized_request.unwrap();
    assert_eq!(request.tenant, "examiner-k7m2");
    assert!(request.return_immediately);
    assert!(request.metadata.is_none());
    let asked = send_configuration(&request).unwrap();
    assert_eq!(asked.accepted_output_modes, ["text/plain"]);
    assert!(asked.return_immediately);
    let waiting = SendRequest { return_immediately: false, ..request };
    assert!(send_configuration(&waiting).is_none());
    let refused = |params: NewSendParams, permit: bool| {
        new_message_operation(params, "a", permit, 10, "t".to_owned(), "c".to_owned(), 5)
            .unwrap_err()
            .text()
    };
    assert_eq!(refused(new_params(true), false), "too many active outbound tasks");
    let mut array = new_params(true);
    array.metadata = Json::Array(Vec::new());
    assert_eq!(refused(array, true), "metadata must be a bounded object");
    let mut large = new_params(true);
    large.metadata = Json::Object(vec![("k".to_owned(), Json::Text("x".repeat(20)))]);
    assert_eq!(refused(large, true), "metadata must be a bounded object");
}

#[test]
fn new_tasks_have_names_of_their_own() {
    let (first, context) = new_task_names(Some("conversation"));
    let (second, fresh_context) = new_task_names(None);
    assert_eq!(context, "conversation");
    assert_ne!(first, second);
    assert!(!first.is_empty() && !fresh_context.is_empty());
    for name in [&first, &second, &fresh_context] {
        assert_eq!(name.len(), 36);
        for (index, letter) in name.chars().enumerate() {
            if [8, 13, 18, 23].contains(&index) {
                assert_eq!(letter, '-');
            } else {
                assert!(matches!(letter, '0'..='9' | 'a'..='f'), "{name}");
            }
        }
    }
}

#[test]
fn resumed_tasks_are_checked_in_order() {
    let params = || ResumeSendParams {
        agent: "examiner-k7m2".to_owned(),
        resume_task_id: "t1".to_owned(),
        timeout_ms: Some(2_000),
    };
    let op = resume_message(params(), true, &Ok(()), true, 1_000).unwrap();
    assert_eq!(op.deadline, 2_001_000);
    assert!(op.normalized_request.is_none());
    assert!(op.context_id.is_none());
    let bad: Result<(), String> = Err("task ID is invalid".to_owned());
    assert_eq!(
        resume_message(params(), false, &bad, false, 0).unwrap_err().text(),
        "agent name is invalid"
    );
    assert_eq!(
        resume_message(params(), true, &bad, false, 0).unwrap_err().text(),
        "task ID is invalid"
    );
    assert_eq!(
        resume_message(params(), true, &Ok(()), false, 0).unwrap_err().text(),
        "too many active outbound tasks"
    );
}

fn private_error(code: &str, candidates: &[&str]) -> PrivateBrokerError {
    PrivateBrokerError {
        code: code.to_owned(),
        message: "told by the broker".to_owned(),
        candidates: candidates.iter().map(|name| (*name).to_owned()).collect(),
    }
}

#[test]
fn broker_refusals_say_what_to_recover() {
    let mode = |status: u16, body: &[u8]| match decode_refusal(status, body, None) {
        RequestError::Recoverable { mode, .. } => Some(mode),
        RequestError::Final(_) => None,
    };
    let coded = |code: &str| format!(r#"{{"error":{{"code":"{code}","message":"m"}}}}"#);
    assert_eq!(
        mode(409, coded("invalid_registration").as_bytes()),
        Some(RecoveryMode::RegistrationRefresh)
    );
    assert_eq!(
        mode(409, coded("stale_registration").as_bytes()),
        Some(RecoveryMode::BrokerReplacement)
    );
    assert_eq!(
        mode(409, coded("broker_instance_mismatch").as_bytes()),
        Some(RecoveryMode::BrokerReplacement)
    );
    assert_eq!(mode(401, b"no"), Some(RecoveryMode::BrokerReplacement));
    assert_eq!(mode(409, coded("other").as_bytes()), None);
    assert_eq!(
        request_error_into_dyn(decode_refusal(503, b"no", None)).text(),
        "broker returned HTTP 503 Service Unavailable"
    );
    let lost = RequestError::Recoverable {
        mode: RecoveryMode::RegistrationRefresh,
        reason: "lost".to_owned(),
    };
    assert_eq!(retry_by(lost).unwrap(), RecoveryMode::RegistrationRefresh);
    let refused = RequestError::Final(SessionFailure::plain("no"));
    assert_eq!(retry_by(refused).unwrap_err().text(), "no");
    let parsed = parse_json(coded("other").as_bytes()).unwrap();
    assert!(matches!(
        refuse_reply(409, Some(&parsed), Some(private_error("ambiguous", &["a", "b"]))),
        RequestError::Final(SessionFailure::Private(error)) if error.candidates.len() == 2
    ));
    assert!(matches!(
        refuse_reply(409, Some(&parsed), Some(private_error("ambiguous", &["b", "a"]))),
        RequestError::Final(SessionFailure::Plain(text)) if text == "m"
    ));
}

#[test]
fn candidates_ascend_strictly() {
    assert!(decode_private_error(private_error("c", &[])).is_some());
    assert!(decode_private_error(private_error("c", &["a", "a-1", "b"])).is_some());
    assert!(decode_private_error(private_error("c", &["a", "a"])).is_none());
    assert!(decode_private_error(private_error("", &["a"])).is_none());
    assert!(decode_private_error(private_error("bad\n", &[])).is_none());
    assert!(decode_private_error(private_error(&"c".repeat(65), &[])).is_none());
}

#[test]
fn transport_errors_lead_to_a_recovery() {
    assert!(matches!(
        transport_error(false, true, false, false, false, "slow".to_owned()),
        RequestError::Recoverable { mode: RecoveryMode::BrokerReplacement, reason } if reason == "slow"
    ));
    assert!(matches!(
        transport_error(false, false, false, false, false, "odd".to_owned()),
        RequestError::Final(SessionFailure::Plain(text)) if text == "odd"
    ));
}

fn directory_agent(pane: &str, status: &str) -> BrokerDirectoryAgent {
    BrokerDirectoryAgent {
        canonical_name: "worker-k7m2".to_owned(),
        role: "worker".to_owned(),
        pane_id: pane.to_owned(),
        harness: "pi".to_owned(),
        status: status.to_owned(),
    }
}

#[test]
fn directories_are_told_whole_or_not_at_all() {
    let told = list_agents(&vec![directory_agent("w1:p1", "live")], "w1").unwrap();
    assert_eq!(told[0].workspace_id, "w1");
    assert_eq!(told[0].role, "worker");
    for bad in [directory_agent("w1:p2", "gone"), directory_agent("", "live")] {
        assert_eq!(
            list_agents(&vec![directory_agent("w1:p1", "live"), bad], "w1").unwrap_err().text(),
            "broker returned an invalid agent directory"
        );
    }
    let panes = vec!["w1:p1".to_owned()];
    let team = wait_for_agents(&vec![directory_agent("w1:p1", "live")], &panes).unwrap();
    assert_eq!(team[0].canonical_name, "worker-k7m2");
    assert_eq!(
        wait_for_agents(&vec![directory_agent("w1:p9", "live")], &panes).unwrap_err().text(),
        "broker returned an invalid team directory"
    );
}

#[test]
fn waits_are_rounded_up() {
    assert_eq!(remaining_wait_ms(0), 1_000);
    assert_eq!(remaining_wait_ms(1_500_000_000), 1_500);
    assert_eq!(remaining_wait_ms(1_500_000_001), 1_501);
    assert_eq!(remaining_wait_ms(u128::MAX), u64::MAX);
    assert!(check_time_left(Some(5), 4, "late").is_ok());
    assert_eq!(check_time_left(Some(5), 5, "late").unwrap_err().text(), "late");
    assert!(check_time_left(None, 5, "late").is_ok());
}

#[test]
fn deliveries_are_handed_on_once_acknowledged() {
    let delivery = parse_json(br#"{"delivery_id":"d1","text":"hi"}"#).unwrap();
    assert_eq!(delivery_identifier(&delivery).unwrap(), "d1");
    assert_eq!(
        delivery_identifier(&parse_json(b"{}").unwrap()).unwrap_err().text(),
        "delivery has no identifier"
    );
    assert!(settle_delivery(delivery.copy(), Ok(())).unwrap().same(&delivery));
    assert!(matches!(
        settle_delivery(delivery, Err(SessionFailure::plain("late"))),
        Err(SessionFailure::Acknowledgement(text)) if text == "late"
    ));
}

#[test]
fn replies_have_their_body_and_result() {
    let metadata = parse_json(br#"{"b":1,"a":-2}"#).unwrap();
    assert!(check_reply("text", &metadata, 10, 100).is_ok());
    assert!(check_reply("text", &metadata, 3, 100).is_err());
    assert!(check_reply("text", &Json::Null, 10, 100).is_err());
    assert_eq!(
        encode_json(&reply_body("text", &metadata)),
        br#"{"file_refs":[],"metadata":{"a":-2,"b":1},"text":"text"}"#
    );
    assert_eq!(
        encode_json(&action_result("t1", "canceled")),
        br#"{"state":"canceled","task_id":"t1"}"#
    );
}

fn pad_json_to_response_bound(mut body: Vec<u8>, extra_bytes: usize) -> Vec<u8> {
    assert!(body.len() <= MAX_PRIVATE_RESPONSE_BYTES);
    body.resize(MAX_PRIVATE_RESPONSE_BYTES + extra_bytes, b' ');
    body
}

fn collect(
    announced: Option<u64>,
    body: &[u8],
    piece: usize,
) -> Result<Vec<u8>, OperationClientError> {
    check_announced_length(announced)?;
    let mut collected = Vec::new();
    for chunk in body.chunks(piece) {
        take_body_chunk(&mut collected, chunk)?;
    }
    Ok(collected)
}

fn task_reply() -> Vec<u8> {
    br#"{"jsonrpc":"2.0","id":"test","result":{"id":"t","contextId":"c","status":{"state":"TASK_STATE_WORKING"}}}"#.to_vec()
}

fn bound_card() -> Vec<u8> {
    card(
        r#"[{"url":"http://127.0.0.1/jsonrpc","protocolBinding":"JSONRPC","protocolVersion":"1.0","tenant":"examiner"}]"#,
    )
}

#[test]
fn unary_jsonrpc_accepts_content_length_body_exactly_at_response_bound() {
    let body = pad_json_to_response_bound(task_reply(), 0);
    let collected = collect(Some(body.len() as u64), &body, body.len()).unwrap();
    let found = read_task_reply(&collected).unwrap();
    assert_eq!((found.id.as_str(), found.state), ("t", TaskPhase::Working));
}

#[test]
fn unary_jsonrpc_rejects_chunked_body_one_byte_over_response_bound() {
    let body = pad_json_to_response_bound(task_reply(), 1);
    assert!(matches!(
        collect(None, &body, 64 * 1024),
        Err(OperationClientError::Protocol(message)) if message.contains("response body exceeds")
    ));
}

#[test]
fn agent_card_accepts_chunked_body_exactly_at_response_bound() {
    let body = pad_json_to_response_bound(bound_card(), 0);
    let collected = collect(None, &body, 64 * 1024).unwrap();
    assert_eq!(read_card(&collected, "examiner").unwrap(), "http://127.0.0.1/jsonrpc");
}

#[test]
fn agent_card_rejects_content_length_body_one_byte_over_response_bound() {
    let body = pad_json_to_response_bound(bound_card(), 1);
    assert!(matches!(
        collect(Some(body.len() as u64), &body, body.len()),
        Err(OperationClientError::Protocol(message)) if message.contains("response body exceeds")
    ));
}
