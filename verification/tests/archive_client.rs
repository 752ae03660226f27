use yarp::archive_client::{
    CONNECT_DELAY_MS, FirstAttempt, STARTUP_TIMEOUT_MS, StartupAction, StartupEvent, StartupPhase,
    UNKNOWN_PRUNE_OUTCOME, check_ack, check_hello_ack, check_ingest_version, execution_result,
    first_attempt, hello, reconnect_pause, reconnect_timeout, request_deadline, second_attempt,
    startup_begin, startup_step,
};
use yarp::archive_protocol::{
    ACK_DEADLINE_MS, ArchiveAck, ArchiveOperation, BROKER_SCHEMA, BrokerEnvelope, BrokerHelloAck,
    INGEST_SCHEMA_VERSION, ReplayPolicy,
};
use yarp::archive::model::{CallIdentity, SessionIdentity};

fn begin_operation(request_id: u64) -> ArchiveOperation {
    ArchiveOperation::BeginCall {
        request_id,
        schema_version: INGEST_SCHEMA_VERSION,
        session: SessionIdentity {
            agent: "agent".to_owned(),
            account: "account".to_owned(),
            source_session_id: "session".to_owned(),
            started_at_ms: Some(1),
        },
        call: CallIdentity {
            source_call_id: "call".to_owned(),
            tool_name: "read".to_owned(),
            provider: None,
            model: None,
            working_directory: None,
            started_at_ms: 2,
            requires_streams: false,
        },
        input_before: b"{}".to_vec(),
        input_after: b"{}".to_vec(),
        captured_at_ms: 3,
    }
}

#[test]
fn safe_capture_reconnects_with_same_identity_and_remaining_deadline() {
    let first = BrokerEnvelope::new(begin_operation(41), request_deadline(ACK_DEADLINE_MS));
    let policy = first.operation.replay_policy();
    let lost = Err("could not read acknowledgement".to_owned());
    assert!(matches!(first_attempt(lost, policy), FirstAttempt::Reconnect(_)));

    let remaining = reconnect_timeout(Some(ACK_DEADLINE_MS - 20)).expect("time is left");
    assert!(remaining > 0);
    let second = BrokerEnvelope::new(
        begin_operation(41),
        request_deadline(ACK_DEADLINE_MS - 20),
    );
    assert_eq!(first.source_key, second.source_key);
    assert_eq!(first.sequence, second.sequence);
    assert!(second.deadline_ms < first.deadline_ms);
    assert!(second.deadline_ms > 0);

    let reply = ArchiveAck::success(41, Some("yr_retry".to_owned()));
    let ack = second_attempt("lost", check_ack(reply, 41)).expect("capture replay");
    assert!(ack.ok);
    assert_eq!(ack.archive_ref.as_deref(), Some("yr_retry"));
}

#[test]
fn lost_prune_acknowledgement_sends_once_and_returns_unknown_outcome() {
    let prune = ArchiveOperation::PruneBefore {
        request_id: 42,
        schema_version: INGEST_SCHEMA_VERSION,
        timestamp_ms: 10,
    };
    let lost = Err("could not read /private/archive.sock".to_owned());
    let FirstAttempt::Done(Err(error)) = first_attempt(lost, prune.replay_policy()) else {
        panic!("a prune was sent twice");
    };
    assert_eq!(error, UNKNOWN_PRUNE_OUTCOME);
    assert!(!error.contains("/private"));
}

#[test]
fn broker_rejection_is_not_transport_retried() {
    let rejection = ArchiveAck::failure(43, "conflict".to_owned());
    let outcome = first_attempt(
        check_ack(rejection, 43),
        begin_operation(43).replay_policy(),
    );
    let FirstAttempt::Done(Ok(ack)) = outcome else {
        panic!("a rejection was retried");
    };
    assert!(!ack.ok);
    assert_eq!(ack.error.as_deref(), Some("conflict"));
    assert_eq!(execution_result(ack), Err("conflict".to_owned()));
}

#[test]
fn acknowledgements_of_other_requests_are_refused() {
    assert!(check_ack(ArchiveAck::success(1, None), 2).is_err());
    assert!(check_ack(ArchiveAck::success(2, None), 2).is_ok());
    assert_eq!(
        execution_result(ArchiveAck::success(2, Some("3".to_owned()))),
        Ok(Some("3".to_owned()))
    );
}

#[test]
fn a_second_loss_reports_both_errors() {
    let error = second_attempt("first loss", Err("second loss".to_owned())).expect_err("loss");
    assert!(error.contains("first loss"));
    assert!(error.contains("second loss"));
}

#[test]
fn time_runs_out_while_reconnecting() {
    assert!(reconnect_timeout(None).is_err());
    assert!(reconnect_pause(None, "refused").expect_err("no time").contains("refused"));
    assert_eq!(reconnect_pause(Some(5), "refused"), Ok(5));
    assert_eq!(reconnect_pause(Some(5_000), "refused"), Ok(CONNECT_DELAY_MS));
}

#[test]
fn the_greeting_is_answered_for_the_same_archive() {
    let greeting = hello("0.1.0", "abc");
    assert_eq!(greeting.schema, BROKER_SCHEMA);
    assert_eq!(greeting.archive_id, "abc");
    let answer = |archive: &str, ok: bool, error: Option<&str>| BrokerHelloAck {
        schema: BROKER_SCHEMA.to_owned(),
        binary_version: "0.1.0".to_owned(),
        archive_id: archive.to_owned(),
        ok,
        error: error.map(ToOwned::to_owned),
    };
    assert!(check_hello_ack(&answer("abc", true, None), "0.1.0", "abc").is_ok());
    assert!(check_hello_ack(&answer("abd", true, None), "0.1.0", "abc").is_err());
    assert!(check_hello_ack(&answer("abc", true, None), "0.2.0", "abc").is_err());
    assert!(
        check_hello_ack(&answer("abc", false, Some("too old")), "0.1.0", "abc")
            .expect_err("refused")
            .contains("too old")
    );
}

#[test]
fn only_the_known_ingest_version_is_sent() {
    assert!(check_ingest_version(&begin_operation(1)).is_ok());
    let newer = ArchiveOperation::PruneBefore {
        request_id: 1,
        schema_version: 2,
        timestamp_ms: 1,
    };
    assert!(
        check_ingest_version(&newer)
            .expect_err("version")
            .contains("unsupported ingest")
    );
    assert_eq!(newer.replay_policy(), ReplayPolicy::UnknownOnDisconnect);
}

#[test]
fn a_broker_is_started_when_none_answers() {
    let (phase, action) = startup_begin();
    assert!(matches!(action, StartupAction::Connect(_)));
    let (phase, action) =
        startup_step(phase, StartupEvent::Handshake(Err("no socket".to_owned())));
    assert!(matches!(action, StartupAction::TakeLock));
    let (phase, action) = startup_step(phase, StartupEvent::Locked);
    assert!(matches!(action, StartupAction::Connect(_)));
    let (phase, action) =
        startup_step(phase, StartupEvent::Handshake(Err("no socket".to_owned())));
    assert!(matches!(action, StartupAction::Probe));
    let (phase, action) = startup_step(phase, StartupEvent::Probed(false));
    assert!(matches!(action, StartupAction::CheckLife));
    let (phase, action) = startup_step(phase, StartupEvent::NoLiveBroker(true));
    assert!(matches!(action, StartupAction::Launch));
    let (phase, action) = startup_step(phase, StartupEvent::Launched);
    assert!(matches!(action, StartupAction::ReadClock));
    let (phase, action) =
        startup_step(phase, StartupEvent::Remaining(Some(STARTUP_TIMEOUT_MS)));
    assert!(matches!(action, StartupAction::Connect(_)));
    let (phase, action) = startup_step(phase, StartupEvent::Handshake(Ok(())));
    assert!(matches!(action, StartupAction::Finish));
    assert!(matches!(phase, StartupPhase::Ended));
}

#[test]
fn a_broker_that_answers_is_used() {
    let (phase, _) = startup_begin();
    let (phase, action) = startup_step(phase, StartupEvent::Handshake(Ok(())));
    assert!(matches!(action, StartupAction::Finish));
    assert!(matches!(phase, StartupPhase::Ended));
}
