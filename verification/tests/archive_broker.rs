use yarp::archive::model::SessionIdentity;
use yarp::archive_broker::batch::{
    Admission, BATCH_BYTE_LIMIT, BATCH_REQUEST_LIMIT, BatchState, IdleDecision, Preparation,
    RetryDecision, Verdict, WorkTicket, consider, defer, idle_step, retry_batch, validate_hello,
};
use yarp::archive_broker::clients::{
    Handover, admits_client, answer_hello, check_alone, check_peer, handover_again, receive,
};
use yarp::archive_broker::budget::ByteBudget;
use yarp::archive_broker::errors::safe_request_error;
use yarp::archive_broker::gathering::{
    GatherStep, Gathering, Waiting, refuse_batch, settle_batch,
};
use yarp::archive_broker::sequences::{SOURCE_SEQUENCE_LIMIT, SourceSequences};
use yarp::archive_protocol::{
    ACK_DEADLINE_MS, ArchiveOperation, BROKER_SCHEMA, BrokerEnvelope, BrokerHello,
    INGEST_SCHEMA_VERSION,
};

fn session() -> SessionIdentity {
    SessionIdentity {
        agent: "pi".to_owned(),
        account: "test".to_owned(),
        source_session_id: "session-secret".to_owned(),
        started_at_ms: Some(10),
    }
}

fn stage_result(request_id: u64) -> ArchiveOperation {
    ArchiveOperation::StageResult {
        request_id,
        schema_version: INGEST_SCHEMA_VERSION,
        session: session(),
        source_call_id: "call-secret".to_owned(),
        result: b"{}".to_vec(),
        is_error: false,
        captured_at_ms: 3,
    }
}

fn final_result(request_id: u64) -> ArchiveOperation {
    ArchiveOperation::UpdateFinalResult {
        request_id,
        schema_version: INGEST_SCHEMA_VERSION,
        session: session(),
        source_call_id: "call-secret".to_owned(),
        result: b"{}".to_vec(),
        is_error: false,
        finished_at_ms: 3,
    }
}

fn result_before(request_id: u64) -> ArchiveOperation {
    ArchiveOperation::ResultBefore {
        request_id,
        schema_version: INGEST_SCHEMA_VERSION,
        session: session(),
        source_call_id: "call-secret".to_owned(),
        result: b"{}".to_vec(),
        full_output_path: None,
        captured_at_ms: 3,
    }
}

#[test]
fn source_sequence_state_is_bounded_and_terminal_operations_release_it() {
    let mut sequences = SourceSequences::default();
    for index in 0..SOURCE_SEQUENCE_LIMIT + 10 {
        sequences.record(&format!("source-{index}"), 1);
    }
    assert_eq!(sequences.len(), SOURCE_SEQUENCE_LIMIT);
    assert!(!sequences.contains("source-0"));

    sequences.record("active", 4);
    assert!(sequences.is_regression("active", 3));
    sequences.finish("active");
    assert!(!sequences.is_regression("active", 3));
}

#[test]
fn handshake_errors_do_not_echo_untrusted_values() {
    let hello = BrokerHello {
        schema: "secret-schema".repeat(100),
        binary_version: "secret-version".repeat(100),
        archive_id: "archive".to_owned(),
    };
    assert_eq!(
        validate_hello(&hello, "0.1.0", "archive").unwrap_err(),
        "unsupported broker schema"
    );
    assert!(
        !validate_hello(&hello, "0.1.0", "archive")
            .unwrap_err()
            .contains("secret")
    );

    let version = BrokerHello {
        schema: BROKER_SCHEMA.to_owned(),
        binary_version: "secret-version".repeat(100),
        archive_id: "archive".to_owned(),
    };
    assert_eq!(
        validate_hello(&version, "0.1.0", "archive").unwrap_err(),
        "archive broker and client versions do not match"
    );
}

#[test]
fn a_greeting_for_another_archive_is_refused() {
    let hello = BrokerHello {
        schema: BROKER_SCHEMA.to_owned(),
        binary_version: "0.1.0".to_owned(),
        archive_id: "other".to_owned(),
    };
    assert!(validate_hello(&hello, "0.1.0", "archive").is_err());
    assert!(validate_hello(&hello, "0.1.0", "other").is_ok());
}

#[test]
fn request_errors_are_bounded_and_hide_source_identity() {
    let redactions = vec!["session-secret".to_owned(), "call-secret".to_owned()];
    let error = format!(
        "tool call call-secret in session-secret failed\n{}",
        "x".repeat(2048)
    );
    let safe = safe_request_error(&error, &redactions);
    assert!(!safe.contains("call-secret"));
    assert!(!safe.contains("session-secret"));
    assert!(!safe.contains('\n'));
    assert!(safe.chars().count() <= 1024);
}

#[test]
fn byte_budget_is_released_when_a_request_finishes() {
    let mut budget = ByteBudget::new(10);
    let permit = budget.acquire(10).expect("full budget");
    assert!(!budget.has_room(1));
    budget.release(permit);
    assert!(budget.has_room(10));
    assert!(budget.acquire(10).is_ok());
}

#[test]
fn a_ticket_carries_what_routes_its_operation() {
    let operation = stage_result(9);
    let ticket = WorkTicket::new(&operation);
    assert_eq!(ticket.request_id, 9);
    assert_eq!(ticket.source_key, operation.source_key());
    assert_eq!(ticket.sequence, operation.sequence());
    assert!(!ticket.ends_source_sequence);
    assert_eq!(ticket.redactions, operation.redactions());
    let refused = ticket.refuse("session-secret is unknown");
    assert!(!refused.ok);
    assert_eq!(refused.request_id, 9);
    assert!(!refused.error.expect("error").contains("session-secret"));
}

#[test]
fn operations_of_a_source_are_settled_in_their_order() {
    let mut sequences = SourceSequences::default();
    let staged = WorkTicket::new(&stage_result(1));
    assert!(staged.screen(false, &sequences).is_none());
    assert!(staged.screen(true, &sequences).is_some_and(|ack| !ack.ok));
    let ack = staged.settle(&mut sequences, Ok(Some("yr_x".to_owned())));
    assert!(ack.ok);
    assert_eq!(ack.archive_ref.as_deref(), Some("yr_x"));

    let late = WorkTicket::new(&result_before(2));
    assert!(late.screen(false, &sequences).is_some_and(|ack| !ack.ok));

    let last = WorkTicket::new(&final_result(3));
    let failed = last.settle(&mut sequences, Err("disk is full".to_owned()));
    assert!(!failed.ok);
    assert!(!sequences.contains(&last.source_key));
    assert!(late.screen(false, &sequences).is_none());
}

#[test]
fn a_batch_holds_a_bounded_number_of_requests_and_bytes() {
    let mut batch = BatchState::new();
    for _ in 0..BATCH_REQUEST_LIMIT - 1 {
        assert!(matches!(batch.offer(1, BATCH_REQUEST_LIMIT), Admission::Taken));
    }
    assert!(!matches!(batch.offer(1, BATCH_REQUEST_LIMIT), Admission::Deferred));
    assert_eq!(batch.requests, BATCH_REQUEST_LIMIT);

    let mut large = BatchState::new();
    assert!(!matches!(
        large.offer(BATCH_BYTE_LIMIT * 2, BATCH_REQUEST_LIMIT),
        Admission::Deferred
    ));
    let mut full = BatchState::new();
    full.offer(BATCH_BYTE_LIMIT - 1, BATCH_REQUEST_LIMIT);
    assert!(matches!(full.offer(2, BATCH_REQUEST_LIMIT), Admission::Deferred));
    assert_eq!(full.requests, 1);
}

#[test]
fn a_request_is_screened_then_prepared_then_offered() {
    let sequences = SourceSequences::default();
    let ticket = WorkTicket::new(&stage_result(5));
    let mut batch = BatchState::new();
    let mut verdict = |expired: bool, preparation: &Preparation| {
        consider(&mut batch, &ticket, expired, &sequences, preparation, BATCH_REQUEST_LIMIT)
    };
    assert!(matches!(verdict(true, &Preparation::Pending), Verdict::Refuse(_)));
    assert!(matches!(verdict(false, &Preparation::Pending), Verdict::Prepare));
    assert!(matches!(
        verdict(false, &Preparation::Failed("no file".to_owned())),
        Verdict::Refuse(_)
    ));
    assert!(matches!(
        verdict(false, &Preparation::Ready(12)),
        Verdict::Offer(Admission::Taken)
    ));
    assert_eq!(batch.requests, 1);
    assert_eq!(batch.bytes, 12);
}

#[test]
fn a_busy_archive_is_tried_again_with_growing_pauses() {
    assert!(matches!(retry_batch(false, 1_000, 10), RetryDecision::Refuse));
    assert!(matches!(retry_batch(true, 0, 10), RetryDecision::Refuse));
    assert!(matches!(
        retry_batch(true, 1_000, 10),
        RetryDecision::Pause { milliseconds: 10, next_delay_ms: 20 }
    ));
    assert!(matches!(
        retry_batch(true, 7, 200),
        RetryDecision::Pause { milliseconds: 7, next_delay_ms: 250 }
    ));
}

#[test]
fn an_idle_broker_stops_only_without_clients() {
    assert!(matches!(idle_step(1, 90_000, 30_000), IdleDecision::Restart));
    assert!(matches!(idle_step(0, 10, 30_000), IdleDecision::Wait));
    assert!(matches!(idle_step(0, 30_000, 30_000), IdleDecision::Stop));
}

#[test]
fn one_broker_serves_an_archive_at_a_time() {
    assert!(check_alone(true, false, false).is_ok());
    assert!(check_alone(true, true, true).is_ok());
    assert_eq!(
        check_alone(true, false, true).unwrap_err(),
        "an archive broker is already running"
    );
    assert!(check_alone(false, true, false).is_err());
}

#[test]
fn clients_of_other_users_and_too_many_clients_are_turned_away() {
    assert!(check_peer(1000, 1000).is_ok());
    assert_eq!(
        check_peer(1001, 1000).unwrap_err(),
        "archive broker rejected a peer owned by another user"
    );
    assert!(admits_client(0));
    assert!(!admits_client(usize::MAX));
}

#[test]
fn a_greeting_is_answered_with_the_identity_of_the_broker() {
    let hello = BrokerHello {
        schema: BROKER_SCHEMA.to_owned(),
        binary_version: "1.0.0".to_owned(),
        archive_id: "archive".to_owned(),
    };
    let accepted = answer_hello(&hello, "1.0.0", "archive");
    assert!(accepted.ok);
    assert_eq!(accepted.error, None);
    assert_eq!(accepted.archive_id, "archive");
    let refused = answer_hello(&hello, "2.0.0", "archive");
    assert!(!refused.ok);
    assert_eq!(refused.binary_version, "2.0.0");
    assert_eq!(
        refused.error,
        Some(validate_hello(&hello, "2.0.0", "archive").unwrap_err())
    );
}

#[test]
fn an_envelope_becomes_a_ticket_or_a_refusal() {
    let envelope = BrokerEnvelope::new(stage_result(4), ACK_DEADLINE_MS);
    let ticket = receive(&envelope).expect("ticket");
    assert_eq!(ticket.request_id, 4);
    assert_eq!(ticket.source_key, envelope.source_key);

    let mut altered = BrokerEnvelope::new(final_result(5), ACK_DEADLINE_MS);
    altered.source_key = "elsewhere".to_owned();
    let refusal = receive(&altered).expect_err("refusal");
    assert!(!refusal.ok);
    assert_eq!(refusal.request_id, 5);
    assert!(refusal.error.expect("error").contains("source key"));
}

#[test]
fn work_is_offered_again_until_its_deadline() {
    assert_eq!(handover_again(Handover::Taken, true), Ok(false));
    assert_eq!(handover_again(Handover::Full, false), Ok(true));
    assert_eq!(
        handover_again(Handover::Full, true).unwrap_err(),
        "archive broker queue deadline expired"
    );
    assert_eq!(
        handover_again(Handover::Closed, false).unwrap_err(),
        "archive broker stopped accepting work"
    );
}

#[test]
fn deferred_requests_keep_their_order() {
    assert_eq!(defer(Some(1), vec![2, 3], vec![4]), vec![1, 2, 3, 4]);
    assert_eq!(defer(None, vec![2], vec![3, 4]), vec![2, 3, 4]);
}

fn waiting(request_id: u64, bytes: u64) -> Waiting<u64> {
    Waiting {
        ticket: WorkTicket::new(&stage_result(request_id)),
        work: bytes,
    }
}

#[test]
fn each_request_is_answered_once_or_deferred() {
    let mut sequences = SourceSequences::default();
    let requests = vec![
        waiting(1, 10),
        waiting(2, 20),
        waiting(3, BATCH_BYTE_LIMIT),
        waiting(4, 5),
    ];
    let mut gathering = Gathering::begin(requests, BATCH_REQUEST_LIMIT);
    assert_eq!(
        gathering.step(false, &sequences, &Preparation::Pending),
        GatherStep::Prepare
    );
    assert_eq!(
        gathering.step(false, &sequences, &Preparation::Ready(10)),
        GatherStep::Next
    );
    assert_eq!(
        gathering.step(true, &sequences, &Preparation::Pending),
        GatherStep::Next
    );
    assert_eq!(
        gathering.step(false, &sequences, &Preparation::Ready(BATCH_BYTE_LIMIT)),
        GatherStep::Close
    );
    assert!(!gathering.is_open);
    let (ready, refused, deferred) = gathering.finish(vec![waiting(5, 1)]);
    assert_eq!(refused.len(), 1);
    assert_eq!(refused[0].ack.request_id, 2);
    let left: Vec<u64> = deferred.iter().map(|request| request.ticket.request_id).collect();
    assert_eq!(left, vec![3, 4, 5]);
    let answers = settle_batch(ready, &mut sequences, vec![Ok(None)]);
    assert_eq!(answers.len(), 1);
    assert_eq!(answers[0].ack.request_id, 1);
    assert!(answers[0].ack.ok);
    let refusals = refuse_batch(deferred, "archive is busy");
    assert_eq!(refusals.len(), 3);
    assert_eq!(refusals[2].ack.request_id, 5);
    assert!(!refusals[2].ack.ok);
}

#[test]
fn a_request_above_the_limit_goes_alone() {
    let sequences = SourceSequences::default();
    let requests = vec![waiting(1, BATCH_BYTE_LIMIT + 1), waiting(2, 1)];
    let mut gathering = Gathering::begin(requests, BATCH_REQUEST_LIMIT);
    assert_eq!(
        gathering.step(false, &sequences, &Preparation::Ready(BATCH_BYTE_LIMIT + 1)),
        GatherStep::Close
    );
    let (ready, _, deferred) = gathering.finish(Vec::new());
    assert_eq!(ready.len(), 1);
    assert_eq!(deferred.len(), 1);
}
