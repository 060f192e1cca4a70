use herdr_a2a_cli::status::{
    is_role, settle_status, status_url, validate_instance_id, verify_status_response, AgentStatus,
    BrokerIdentity, BrokerOperationsSnapshot, BrokerStatusEvent, BrokerTaskCounts, OperationsError,
    StatusBody, StatusReply, WorkspaceStatus,
};
use herdr_a2a_cli::status_tui::{
    doctor_line, render, sanitize_line, TuiCommand, TuiState, TuiView,
};

use base64::Engine;
use hmac::Mac;
use sha2::Digest;

fn encode(bytes: &[u8]) -> String {
    base64::engine::general_purpose::URL_SAFE_NO_PAD.encode(bytes)
}

fn identity() -> BrokerIdentity {
    BrokerIdentity {
        base_url: "http://127.0.0.1:4312".to_owned(),
        workspace_id: "w1".to_owned(),
        broker_instance_id: encode(&[0x22; 32]),
        bearer_token: "test-bearer".to_owned(),
    }
}

fn signed(token: &str, instance: &str, nonce: &[u8], body: &[u8]) -> String {
    let key = sha2::Sha256::digest(token.as_bytes());
    let mut mac = hmac::Hmac::<sha2::Sha256>::new_from_slice(&key).unwrap();
    mac.update(b"herdr-a2a-status-v1\0");
    mac.update(instance.as_bytes());
    mac.update(nonce);
    mac.update(body);
    encode(&mac.finalize().into_bytes())
}

fn reply(body: &[u8], nonce: &[u8], code: u16) -> StatusReply {
    let identity = identity();
    StatusReply {
        url: status_url(&identity, nonce),
        code,
        content_length: Some(body.len() as u64),
        instance_values: vec![Some(identity.broker_instance_id.clone())],
        proof_values: vec![Some(signed("test-bearer", &identity.broker_instance_id, nonce, body))],
        body: Some(body.to_vec()),
    }
}

fn said(status: Option<WorkspaceStatus>) -> StatusBody {
    StatusBody { error_code: None, status }
}

const NONCE: [u8; 32] = [7; 32];

fn settle(reply: &StatusReply, said: StatusBody) -> Result<WorkspaceStatus, OperationsError> {
    settle_status(&identity(), &NONCE, &status_url(&identity(), &NONCE), reply, said)
}

#[test]
fn a_proved_status_is_shown() {
    let status = settle(&reply(b"{}", &NONCE, 200), said(Some(WorkspaceStatus::healthy_fixture("w1"))))
        .unwrap();
    assert_eq!(status.agents[0].canonical_name, "worker-k7m2");
    assert_eq!(
        status_url(&identity(), &NONCE),
        format!("http://127.0.0.1:4312/health/status/{}", encode(&NONCE))
    );
}

#[test]
fn a_status_without_its_proof_is_refused() {
    let fixture = || said(Some(WorkspaceStatus::healthy_fixture("w1")));
    let mut other_nonce = reply(b"{}", &[8; 32], 200);
    other_nonce.url = status_url(&identity(), &NONCE);
    assert_eq!(settle(&other_nonce, fixture()).unwrap_err(), OperationsError::BrokerProofFailed);
    let mut tampered = reply(b"{}", &NONCE, 200);
    tampered.body = Some(b"{ }".to_vec());
    assert_eq!(settle(&tampered, fixture()).unwrap_err(), OperationsError::BrokerProofFailed);
    let mut twice = reply(b"{}", &NONCE, 200);
    twice.instance_values.push(None);
    assert_eq!(settle(&twice, fixture()).unwrap_err(), OperationsError::BrokerProofFailed);
    let mut forged = reply(b"{}", &NONCE, 200);
    forged.proof_values =
        vec![Some(signed("other-bearer", &identity().broker_instance_id, &NONCE, b"{}"))];
    assert_eq!(settle(&forged, fixture()).unwrap_err(), OperationsError::BrokerProofFailed);
    let mut short = reply(b"{}", &NONCE, 200);
    short.proof_values = vec![Some("AAAA".to_owned())];
    assert_eq!(settle(&short, fixture()).unwrap_err(), OperationsError::BrokerProofFailed);
}

#[test]
fn status_replies_are_judged_in_order() {
    let mut moved = reply(b"{}", &NONCE, 200);
    moved.url = "http://elsewhere".to_owned();
    assert_eq!(settle(&moved, said(None)).unwrap_err(), OperationsError::InvalidResponse);
    let mut long = reply(b"{}", &NONCE, 200);
    long.content_length = Some(256 * 1024 + 1);
    assert_eq!(settle(&long, said(None)).unwrap_err(), OperationsError::InvalidResponse);
    let storage = StatusBody {
        error_code: Some("persistence_unavailable".to_owned()),
        status: None,
    };
    assert_eq!(
        settle(&reply(b"{}", &NONCE, 503), storage).unwrap_err(),
        OperationsError::StorageReconciliationFailed
    );
    assert_eq!(
        settle(&reply(b"{}", &NONCE, 503), said(None)).unwrap_err(),
        OperationsError::InvalidResponse
    );
    assert_eq!(
        settle(&reply(b"{}", &NONCE, 404), said(Some(WorkspaceStatus::healthy_fixture("w1"))))
            .unwrap_err(),
        OperationsError::InvalidResponse
    );
    assert_eq!(
        settle(&reply(b"{}", &NONCE, 200), said(Some(WorkspaceStatus::healthy_fixture("w2"))))
            .unwrap_err(),
        OperationsError::InvalidResponse
    );
    assert_eq!(OperationsError::BrokerUnavailable.text(), "workspace broker is unavailable");
    assert_eq!(OperationsError::BrokerProofFailed.text(), "workspace broker proof failed");
    assert_eq!(
        OperationsError::InvalidResponse.text(),
        "workspace broker returned invalid redacted status"
    );
    assert_eq!(
        OperationsError::StorageReconciliationFailed.text(),
        "workspace broker storage reconciliation failed"
    );
}

#[test]
fn instances_have_one_form() {
    assert_eq!(validate_instance_id(&identity()).unwrap(), [0x22; 32]);
    for bad in ["", "IiI", "IiIiIiIiIiIiIiIiIiIiIiIiIiIiIiIiIiIiIiIiIiJ", &encode(&[1; 31])] {
        let mut identity = identity();
        identity.broker_instance_id = bad.to_owned();
        assert_eq!(validate_instance_id(&identity).unwrap_err(), OperationsError::BrokerProofFailed);
    }
    assert!(
        verify_status_response(
            &identity(),
            &NONCE,
            &vec![Some(identity().broker_instance_id)],
            &vec![Some(signed("test-bearer", &identity().broker_instance_id, &NONCE, b"body"))],
            b"body"
        )
        .is_ok()
    );
}

fn agent(name: &str) -> AgentStatus {
    AgentStatus::new("worker", Some(name), "connected").unwrap()
}

fn snapshot(registrations: usize, kind: Option<&str>) -> BrokerOperationsSnapshot {
    BrokerOperationsSnapshot {
        registrations,
        tasks: BrokerTaskCounts { queued: 1, leased: 2, waiting_reply: 3, terminal: 40 },
        last_event: kind.map(|kind| BrokerStatusEvent {
            canonical_name: "worker-k7m2".to_owned(),
            kind: kind.to_owned(),
            unix_time: 1_700_000_000,
        }),
    }
}

#[test]
fn a_status_is_checked_before_it_is_shown() {
    let made = |id: &str, agents: Vec<AgentStatus>, snapshot: BrokerOperationsSnapshot| {
        WorkspaceStatus::from_broker(id, agents, snapshot)
    };
    assert!(made("w1", vec![agent("a"), agent("b")], snapshot(2, Some("task_queued"))).is_ok());
    for bad in [
        made("", Vec::new(), snapshot(0, None)),
        made("w\n", Vec::new(), snapshot(0, None)),
        made(&"w".repeat(1025), Vec::new(), snapshot(0, None)),
        made("w1", vec![agent("a")], snapshot(0, None)),
        made("w1", vec![agent("a"), agent("a")], snapshot(2, None)),
        made("w1", Vec::new(), snapshot(0, Some("Task"))),
        made("w1", Vec::new(), snapshot(0, Some(""))),
        made("w1", Vec::new(), snapshot(0, Some(&"k".repeat(65)))),
    ] {
        assert_eq!(bad.unwrap_err(), OperationsError::InvalidResponse);
    }
    assert!(AgentStatus::new("worker", Some("a"), "gone").is_err());
    assert!(AgentStatus::new("worker", None, "connected").is_err());
    assert!(AgentStatus::new("Worker", Some("a"), "connected").is_err());
}

#[test]
fn roles_are_short_and_small() {
    for role in ["a", "worker", "a-b_9", &"a".repeat(32)] {
        assert!(is_role(role));
    }
    for role in ["", "9a", "-a", "A", "a b", "a\u{e9}", &"a".repeat(33)] {
        assert!(!is_role(role));
    }
}

fn screen() -> TuiState {
    TuiState::new(
        WorkspaceStatus::from_broker(
            "w1",
            vec![agent("worker-k7m2")],
            snapshot(1, Some("task_queued")),
        )
        .unwrap(),
    )
}

#[test]
fn the_screen_shows_the_status() {
    assert_eq!(
        render(&screen()),
        "Herdr A2A · workspace: w1\n\
         Broker     ● healthy\n\
         Storage    ● reconciled\n\
         \nAgents\n\
         worker · worker-k7m2 · connected\n\
         \nTasks\nqueued 1 · leased 2 · waiting reply 3 · terminal 40\n\
         \nLast event\n\
         worker-k7m2 task_queued · 1700000000\n\
         \n[d] Doctor  [l] Logs  [r] Restart broker  [q] Close"
    );
    let empty =
        TuiState::new(WorkspaceStatus::from_broker("w1", Vec::new(), snapshot(0, None)).unwrap());
    let shown = render(&empty);
    assert!(shown.contains("\nAgents\nnone connected\n"));
    assert!(shown.contains("\nLast event\nnone\n"));
}

#[test]
fn a_restart_takes_two_presses() {
    let mut state = screen();
    assert_eq!(state.handle_key('r'), TuiCommand::ConfirmRestart);
    assert_eq!(state.view, TuiView::RestartConfirmation);
    assert!(render(&state).contains("Press [r] again to restart the proved workspace broker."));
    assert_eq!(state.handle_key('d'), TuiCommand::RunDoctor);
    assert_eq!(state.handle_key('r'), TuiCommand::ConfirmRestart);
    assert_eq!(state.handle_key('r'), TuiCommand::RestartBroker);
    assert_eq!(state.handle_key('x'), TuiCommand::Ignore);
    assert_eq!(state.handle_key('l'), TuiCommand::ShowLogs);
    assert!(!state.quit);
    assert_eq!(state.handle_key('q'), TuiCommand::Quit);
    assert!(state.quit);
}

#[test]
fn only_plain_presses_count() {
    let mut state = screen();
    assert_eq!(state.dispatch_key(false, true, Some('q')), TuiCommand::Ignore);
    assert_eq!(state.dispatch_key(true, false, Some('q')), TuiCommand::Ignore);
    assert_eq!(state.dispatch_key(true, true, None), TuiCommand::Ignore);
    assert!(!state.quit);
    assert_eq!(state.dispatch_key(true, true, Some('q')), TuiCommand::Quit);
}

#[test]
fn details_hide_what_is_marked() {
    for secret in [
        "Authorization: BEARER abc",
        "refresh Token",
        "Payload",
        "the message",
        "Descriptor",
        "TASK_ID=1",
        "task-1",
    ] {
        assert_eq!(sanitize_line(secret), "[redacted operational log line]");
    }
    assert_eq!(sanitize_line("a\u{1b}[31mred\tb"), "a[31mred\tb");
    assert_eq!(sanitize_line(&"x".repeat(600)).len(), 512);
    assert_eq!(sanitize_line("tasks are fine"), "tasks are fine");
}

#[test]
fn logs_show_only_how_many_there_are() {
    let mut state = screen();
    state.show_logs(&vec!["bearer abc".to_owned(), "plain".to_owned()]);
    assert_eq!(state.details, vec!["[redacted operational log line]".to_owned(); 2]);
    assert!(!render(&state).contains("plain"));
    state.show_logs(&Vec::new());
    assert_eq!(state.details, ["No plugin log entries are available."]);
    state.show_logs(&vec!["x".to_owned(); 150]);
    assert_eq!(state.details.len(), 100);
    state.show_lines(TuiView::Doctor, &vec![doctor_line("ok", "all well"); 150]);
    assert_eq!(state.details.len(), 100);
    assert_eq!(state.details[0], "ok · all well");
    assert!(render(&state).contains("\nok · all well\n"));
}

#[test]
fn a_restart_that_fails_keeps_the_status() {
    let mut state = screen();
    state.restarted(None);
    assert_eq!(state.details, ["Broker restart failed closed."]);
    assert_eq!(state.status.workspace_id, "w1");
    state.restarted(Some(WorkspaceStatus::healthy_fixture("w2")));
    assert_eq!(state.status.workspace_id, "w2");
    assert!(state.details.is_empty());
    state.refreshed(None);
    assert_eq!(state.status.workspace_id, "w2");
    state.refreshed(Some(WorkspaceStatus::healthy_fixture("w3")));
    assert_eq!(state.status.workspace_id, "w3");
}
