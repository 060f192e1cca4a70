use herdr_a2a_cli::path::FsPath;
use herdr_a2a_cli::random::{
    hex_of, jitter_from, jitter_percent, random_hex, random_nonce, renewal_delay, renewal_from,
};
use herdr_a2a_cli::recovery::{
    admit_attempt, authenticated_headers, check_candidate, check_connection, check_health,
    classify_proof_error, decode_registration_error, descriptor_error, judge_replacement,
    keeps_replacement, launch_deadline, map_launch_error, oversized_registration, plan_recovery, settle_recovery,
    validate_recovered_descriptor, Backoff, EstablishStep, LaunchError, RecoveryError,
    RecoveryMode, RuntimeDescriptor, SessionIdentity,
};

const FIRST_INSTANCE: &str = "IiIiIiIiIiIiIiIiIiIiIiIiIiIiIiIiIiIiIiIiIiI";
const SECOND_INSTANCE: &str = "MzMzMzMzMzMzMzMzMzMzMzMzMzMzMzMzMzMzMzMzMzM";

fn identity() -> SessionIdentity {
    SessionIdentity {
        session_key: "test-session".to_owned(),
        workspace_id: "test-workspace".to_owned(),
        executable: FsPath::from_text("/test/herdr-a2a"),
        pane_id: "w1:p1".to_owned(),
        harness_session_id: "pi-session-1".to_owned(),
        agent_name: None,
    }
}

fn descriptor(instance: &str) -> RuntimeDescriptor {
    RuntimeDescriptor {
        session_key: "test-session".to_owned(),
        workspace_id: "test-workspace".to_owned(),
        base_url: "http://127.0.0.1:4312".to_owned(),
        bearer_token: "REREREREREREREREREREREREREREREREREREREREREQ".to_owned(),
        broker_instance_id: instance.to_owned(),
        executable_path: FsPath::from_text("/test/herdr-a2a"),
        broker_pid: 1,
        created_unix_ms: 1,
    }
}

#[test]
fn registration_verification_pending_is_transient() {
    let error = decode_registration_error(
        403,
        br#"{"error":{"code":"verification_failed","message":"Herdr could not verify this pane"}}"#,
    );

    assert!(matches!(
        error,
        RecoveryError::Unavailable(message)
            if message == "Herdr could not verify this pane"
    ));
}

#[test]
fn registration_rejections_other_than_verification_pending_remain_final() {
    for encoded in [
        br#"{"error":{"code":"agent_identity_changed","message":"Herdr could not verify this pane"}}"#.as_slice(),
        br#"{"error":{"code":"unknown","message":"rejected"}}"#.as_slice(),
        b"not-json".as_slice(),
    ] {
        assert!(matches!(
            decode_registration_error(403, encoded),
            RecoveryError::RegistrationRejected(_)
        ));
    }
}

#[test]
fn a_silent_refusal_is_told_by_its_status() {
    assert_eq!(
        decode_registration_error(403, b"not-json").text(),
        "broker registration was rejected: broker returned HTTP 403 Forbidden"
    );
    assert_eq!(
        oversized_registration().text(),
        "broker registration was rejected: registration response exceeded its bound"
    );
    assert!(check_health(204).is_ok());
    assert_eq!(
        check_health(503).unwrap_err().text(),
        "broker registration was rejected: health returned HTTP 503 Service Unavailable"
    );
}

#[test]
fn recovery_rejects_a_descriptor_from_another_workspace() {
    let identity = identity();
    let mut replacement = descriptor(SECOND_INSTANCE);
    replacement.workspace_id = "other-workspace".to_owned();

    assert!(matches!(
        validate_recovered_descriptor(&identity, &replacement),
        Err(RecoveryError::DescriptorInvalid(_))
    ));
}

#[test]
fn recovery_rejects_other_sessions_and_executables() {
    let mut session = descriptor(SECOND_INSTANCE);
    session.session_key = "other".to_owned();
    assert_eq!(
        validate_recovered_descriptor(&identity(), &session).unwrap_err().text(),
        "runtime descriptor is invalid: session identity changed during recovery"
    );
    let mut executable = descriptor(SECOND_INSTANCE);
    executable.executable_path = FsPath::from_text("/other/herdr-a2a");
    assert_eq!(
        validate_recovered_descriptor(&identity(), &executable).unwrap_err().text(),
        "runtime descriptor is invalid: executable identity changed during recovery"
    );
}

#[test]
fn a_rejected_instance_is_waited_out() {
    assert!(matches!(
        check_candidate(&identity(), &descriptor(FIRST_INSTANCE), Some(FIRST_INSTANCE)),
        Err(RecoveryError::Unavailable(_))
    ));
    assert!(check_candidate(&identity(), &descriptor(SECOND_INSTANCE), Some(FIRST_INSTANCE)).is_ok());
    assert!(check_candidate(&identity(), &descriptor(FIRST_INSTANCE), None).is_ok());
}

#[test]
fn a_connection_must_be_the_one_that_was_found() {
    let found = descriptor(FIRST_INSTANCE);
    let mut moved = descriptor(FIRST_INSTANCE);
    moved.base_url = "http://127.0.0.1:9".to_owned();
    assert!(matches!(
        check_connection(&identity(), &found, &moved, "worker"),
        Err(RecoveryError::ProofInvalid(_))
    ));
    let mut named = identity();
    named.agent_name = Some("implementer".to_owned());
    assert!(check_connection(&named, &found, &descriptor(FIRST_INSTANCE), "implementer").is_ok());
    assert!(matches!(
        check_connection(&named, &found, &descriptor(FIRST_INSTANCE), "worker"),
        Err(RecoveryError::RegistrationRejected(_))
    ));
}

#[test]
fn recovery_reuses_what_another_caller_recovered() {
    let (reuse, rejected) =
        plan_recovery(true, RecoveryMode::BrokerReplacement, FIRST_INSTANCE, FIRST_INSTANCE);
    assert!(!reuse);
    assert_eq!(rejected, Some(FIRST_INSTANCE));
    let (reuse, rejected) =
        plan_recovery(false, RecoveryMode::RegistrationRefresh, FIRST_INSTANCE, FIRST_INSTANCE);
    assert!(reuse);
    assert_eq!(rejected, None);
    assert!(!plan_recovery(false, RecoveryMode::BrokerReplacement, FIRST_INSTANCE, FIRST_INSTANCE).0);
    assert!(plan_recovery(false, RecoveryMode::BrokerReplacement, SECOND_INSTANCE, FIRST_INSTANCE).0);
}

/// Recovers as the callers of one manager do, and counts what is established.
fn recover(
    current: &mut (u32, &'static str),
    observed: (u32, &'static str),
    mode: RecoveryMode,
    established: Result<(u32, &'static str), RecoveryError>,
    count: &mut u32,
) -> Result<(u32, &'static str), RecoveryError> {
    let (reuse, _) = plan_recovery(current.0 == observed.0, mode, current.1, observed.1);
    if reuse {
        return Ok(*current);
    }
    *count += 1;
    settle_recovery(current, established)?;
    Ok(*current)
}

#[test]
fn concurrent_callers_share_one_recovered_connection() {
    let observed = (1, FIRST_INSTANCE);
    let mut current = observed;
    let mut count = 0;
    let mode = RecoveryMode::BrokerReplacement;
    for serial in 2..6 {
        let made = Ok((serial, SECOND_INSTANCE));
        assert_eq!(
            recover(&mut current, observed, mode, made, &mut count).unwrap(),
            (2, SECOND_INSTANCE)
        );
    }
    assert_eq!(count, 1);
    assert_eq!(current, (2, SECOND_INSTANCE));
}

#[test]
fn a_failed_recovery_leaves_the_connection_in_place() {
    let observed = (1, FIRST_INSTANCE);
    let mut current = observed;
    let mut count = 0;
    let mode = RecoveryMode::RegistrationRefresh;
    let failed = recover(&mut current, observed, mode, Err(RecoveryError::Deadline), &mut count);
    assert!(matches!(failed, Err(RecoveryError::Deadline)));
    assert_eq!(current, observed);
    recover(&mut current, observed, mode, Ok((2, FIRST_INSTANCE)), &mut count).unwrap();
    assert_eq!(current, (2, FIRST_INSTANCE));
    assert_eq!(count, 2);
}

#[test]
fn recoveries_share_a_connection_after_some_have_failed() {
    let observed = (1, FIRST_INSTANCE);
    let mut current = observed;
    let mut count = 0;
    let mode = RecoveryMode::BrokerReplacement;
    for _ in 0..2 {
        let failed =
            recover(&mut current, observed, mode, Err(RecoveryError::Deadline), &mut count);
        assert!(failed.is_err());
        assert_eq!(current, observed);
    }
    for serial in 2..5 {
        let made = Ok((serial, SECOND_INSTANCE));
        assert_eq!(
            recover(&mut current, observed, mode, made, &mut count).unwrap(),
            (2, SECOND_INSTANCE)
        );
    }
    assert_eq!(count, 3);
}

#[test]
fn another_instance_in_place_is_handed_back() {
    assert!(keeps_replacement(SECOND_INSTANCE, FIRST_INSTANCE));
    assert!(!keeps_replacement(FIRST_INSTANCE, FIRST_INSTANCE));
    assert!(matches!(admit_attempt(true, Some(5), 0), Err(RecoveryError::Shutdown)));
    assert!(matches!(admit_attempt(false, Some(5), 5), Err(RecoveryError::Deadline)));
}

#[test]
fn replacements_are_told_by_their_instance() {
    let same = descriptor(FIRST_INSTANCE);
    let other = descriptor(SECOND_INSTANCE);
    assert!(!judge_replacement(&identity(), FIRST_INSTANCE, Ok(&same)).unwrap());
    assert!(judge_replacement(&identity(), FIRST_INSTANCE, Ok(&other)).unwrap());
    assert!(
        !judge_replacement(
            &identity(),
            FIRST_INSTANCE,
            Err(RecoveryError::Unavailable("gone".to_owned()))
        )
        .unwrap()
    );
    assert!(matches!(
        judge_replacement(&identity(), FIRST_INSTANCE, Err(RecoveryError::Deadline)),
        Err(RecoveryError::Deadline)
    ));
}

fn unavailable() -> Result<(), RecoveryError> {
    Err(RecoveryError::Unavailable("starting".to_owned()))
}

#[test]
fn recovery_backoff_is_50_100_200_400_800_1000_ms_without_jitter() {
    let mut backoff = Backoff::start();
    let mut elapsed = 0;
    for expected in [50, 100, 200, 400, 800, 1_000, 1_000] {
        match backoff.settle_attempt(unavailable(), 0, None, 0) {
            EstablishStep::Wait(us) => {
                assert_eq!(us, expected * 1_000);
                elapsed += us;
            }
            other => panic!("{other:?}"),
        }
    }
    assert_eq!(elapsed, 3_550_000);
    assert!(matches!(
        backoff.settle_attempt(Ok(()), 0, None, 0),
        EstablishStep::Connected
    ));
}

#[test]
fn jitter_adds_at_most_a_quarter() {
    let wait = |jitter: u8| match Backoff::start().settle_attempt(unavailable(), jitter, None, 0) {
        EstablishStep::Wait(us) => us,
        other => panic!("{other:?}"),
    };
    assert_eq!(wait(7), 53_500);
    assert_eq!(wait(25), 62_500);
    assert_eq!(wait(200), 62_500);
}

#[test]
fn bounded_recovery_stops_at_the_original_deadline() {
    let deadline = Some(175_000);
    let mut backoff = Backoff::start();
    let mut now = 0;
    for expected in [50_000, 100_000, 25_000] {
        assert!(admit_attempt(false, deadline, now).is_ok());
        match backoff.settle_attempt(unavailable(), 0, deadline, now) {
            EstablishStep::Wait(us) => {
                assert_eq!(us, expected);
                now += us;
            }
            other => panic!("{other:?}"),
        }
    }
    assert_eq!(now, 175_000);
    assert!(matches!(admit_attempt(false, deadline, now), Err(RecoveryError::Deadline)));
    assert!(matches!(
        backoff.settle_attempt(unavailable(), 0, deadline, now),
        EstablishStep::Stop(RecoveryError::Deadline)
    ));
    assert!(matches!(admit_attempt(true, deadline, now), Err(RecoveryError::Shutdown)));
    assert!(admit_attempt(false, None, u64::MAX).is_ok());
}

#[test]
fn only_an_unavailable_broker_is_tried_again() {
    let rejected = Err(RecoveryError::RegistrationRejected("no".to_owned()));
    assert!(matches!(
        Backoff::start().settle_attempt(rejected, 0, None, 0),
        EstablishStep::Stop(RecoveryError::RegistrationRejected(text)) if text == "no"
    ));
    assert_eq!(launch_deadline(None, 5), 10_000_005);
    assert_eq!(launch_deadline(Some(7), 5), 7);
}

#[test]
fn launch_and_proof_errors_are_classified() {
    assert!(matches!(map_launch_error(LaunchError::Deadline), RecoveryError::Deadline));
    assert_eq!(
        map_launch_error(LaunchError::InvalidScope).text(),
        "runtime descriptor is invalid: broker launcher scope changed"
    );
    assert_eq!(
        map_launch_error(LaunchError::ProofInvalid("x".to_owned())).text(),
        "broker proof is invalid: x"
    );
    assert_eq!(
        map_launch_error(LaunchError::Unavailable("x".to_owned())).text(),
        "broker unavailable: x"
    );
    assert!(matches!(classify_proof_error(true, String::new()), RecoveryError::Unavailable(_)));
    assert!(matches!(classify_proof_error(false, String::new()), RecoveryError::ProofInvalid(_)));
    assert!(matches!(descriptor_error(true, String::new()), RecoveryError::Unavailable(_)));
    assert!(matches!(descriptor_error(false, String::new()), RecoveryError::DescriptorInvalid(_)));
    assert_eq!(RecoveryError::Deadline.text(), "broker recovery deadline expired");
    assert_eq!(RecoveryError::Shutdown.text(), "broker recovery stopped for shutdown");
}

#[test]
fn sessions_show_their_token_and_registration() {
    assert_eq!(
        authenticated_headers("t", None),
        [("authorization".to_owned(), "Bearer t".to_owned())]
    );
    let headers = authenticated_headers("t", Some(("r", 12)));
    assert_eq!(headers[1], ("x-herdr-a2a-registration".to_owned(), "r".to_owned()));
    assert_eq!(headers[2], ("x-herdr-a2a-registration-epoch".to_owned(), "12".to_owned()));
}

#[test]
fn random_values_stay_in_their_range() {
    let token = random_hex().unwrap();
    assert_eq!(token.len(), 32);
    assert!(token.bytes().all(|byte| byte.is_ascii_hexdigit()));
    assert_ne!(token, random_hex().unwrap());
    assert_eq!(random_nonce().unwrap().len(), 32);
    assert_ne!(random_nonce(), random_nonce());
    assert_eq!(hex_of(Ok(vec![0, 171, 255])).unwrap(), "00abff");
    assert_eq!(
        hex_of(Err("no entropy".to_owned())).unwrap_err().text(),
        "generation_failed: randomness unavailable: no entropy"
    );
    assert_eq!(jitter_from(Some(255)), 21);
    assert_eq!(jitter_from(None), 0);
    assert!(jitter_percent() <= 25);
    assert_eq!(renewal_from(Some(2_000)), 12_000);
    assert_eq!(renewal_from(Some(2_001)), 10_000);
    assert_eq!(renewal_from(None), 10_000);
    assert!((10_000..=12_000).contains(&renewal_delay()));
}

#[test]
fn recovery_discards_old_credentials_and_requires_a_new_instance() {
    let (reuse, rejected) =
        plan_recovery(true, RecoveryMode::BrokerReplacement, FIRST_INSTANCE, FIRST_INSTANCE);
    assert!(!reuse);
    let mut backoff = Backoff::start();
    let stale = check_candidate(&identity(), &descriptor(FIRST_INSTANCE), rejected);
    assert!(matches!(backoff.settle_attempt(stale, 0, None, 0), EstablishStep::Wait(50_000)));
    let fresh = descriptor(SECOND_INSTANCE);
    assert!(check_candidate(&identity(), &fresh, rejected).is_ok());
    let proved =
        check_connection(&identity(), &fresh, &descriptor(SECOND_INSTANCE), "implementer");
    assert!(matches!(backoff.settle_attempt(proved, 0, None, 0), EstablishStep::Connected));
}

#[test]
fn registration_refresh_reproves_and_accepts_the_verified_same_instance() {
    let (reuse, rejected) =
        plan_recovery(true, RecoveryMode::RegistrationRefresh, FIRST_INSTANCE, FIRST_INSTANCE);
    assert!(!reuse);
    let mut named = identity();
    named.agent_name = Some("implementer".to_owned());
    let found = descriptor(FIRST_INSTANCE);
    assert!(check_candidate(&named, &found, rejected).is_ok());
    assert!(check_connection(&named, &found, &descriptor(FIRST_INSTANCE), "implementer").is_ok());
}

#[test]
fn replacement_recovery_still_fences_a_same_instance_refresh() {
    let (reuse, rejected) =
        plan_recovery(false, RecoveryMode::BrokerReplacement, FIRST_INSTANCE, FIRST_INSTANCE);
    assert!(!reuse);
    assert!(check_candidate(&identity(), &descriptor(FIRST_INSTANCE), rejected).is_err());
    assert!(check_candidate(&identity(), &descriptor(SECOND_INSTANCE), rejected).is_ok());
}

#[test]
fn recovery_rejects_redirect_origin_executable_and_session_changes() {
    let mut changed_executable = descriptor(SECOND_INSTANCE);
    changed_executable.executable_path = FsPath::from_text("/different/executable");
    assert!(matches!(
        check_candidate(&identity(), &changed_executable, Some(FIRST_INSTANCE)),
        Err(RecoveryError::DescriptorInvalid(_))
    ));
    let mut substituted = descriptor(SECOND_INSTANCE);
    substituted.base_url = "http://127.0.0.1:5999".to_owned();
    assert!(matches!(
        check_connection(&identity(), &descriptor(SECOND_INSTANCE), &substituted, "implementer"),
        Err(RecoveryError::ProofInvalid(_))
    ));
}

#[test]
fn unbounded_recovery_stops_only_on_shutdown() {
    let mut backoff = Backoff::start();
    for attempt in 0..1_000_u64 {
        assert!(admit_attempt(false, None, attempt).is_ok());
        let step = backoff.settle_attempt(unavailable(), 0, None, attempt);
        assert!(matches!(step, EstablishStep::Wait(_)));
    }
    assert!(matches!(admit_attempt(true, None, 0), Err(RecoveryError::Shutdown)));
}
