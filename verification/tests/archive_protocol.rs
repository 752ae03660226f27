use yarp::archive::model::{CallIdentity, SessionIdentity, SourceCompleteness};
use yarp::archive_protocol::{
    ACK_DEADLINE_MS, ArchiveAck, ArchiveOperation, BROKER_SCHEMA, BrokerEnvelope,
    INGEST_SCHEMA_VERSION, ReplayPolicy,
};
use yarp::frames::{FrameStep, MAX_FRAME_BYTES, decode_frame_length, encode_frame, next_frame, only_frame};

fn session() -> SessionIdentity {
    SessionIdentity {
        agent: "agent-secret".to_owned(),
        account: "account-secret".to_owned(),
        source_session_id: "session-secret".to_owned(),
        started_at_ms: Some(1),
    }
}

fn begin() -> ArchiveOperation {
    ArchiveOperation::BeginCall {
        request_id: 7,
        schema_version: INGEST_SCHEMA_VERSION,
        session: session(),
        call: CallIdentity {
            source_call_id: "call-secret".to_owned(),
            tool_name: "read".to_owned(),
            provider: None,
            model: None,
            working_directory: None,
            started_at_ms: 2,
            requires_streams: false,
        },
        input_before: b"{}".to_vec(),
        input_after: b"{}".to_vec(),
        captured_at_ms: 3,
    }
}

#[test]
fn envelope_validates_derived_routing_fields() {
    let mut envelope = BrokerEnvelope::new(begin(), ACK_DEADLINE_MS);
    assert!(envelope.validate().is_ok());
    assert_eq!(envelope.operation.request_id(), 7);
    assert_eq!(envelope.operation.replay_policy(), ReplayPolicy::SafeReplay);
    assert_eq!(envelope.operation.redactions().len(), 4);
    assert!(!envelope.source_key.contains("secret"));
    envelope.sequence = 9;
    assert!(envelope.validate().unwrap_err().contains("sequence"));
    envelope.sequence = 0;
    envelope.schema = "x".repeat(4096);
    assert_eq!(
        envelope.validate().unwrap_err(),
        "unsupported broker schema"
    );
    envelope.schema = BROKER_SCHEMA.to_owned();
    envelope.source_key = "wrong".to_owned();
    assert!(envelope.validate().unwrap_err().contains("source key"));
    envelope.source_key = envelope.operation.source_key();
    envelope.deadline_ms = 0;
    assert!(envelope.validate().unwrap_err().contains("deadline"));
}

#[test]
fn every_operation_has_an_explicit_replay_policy() {
    let session = session();
    let source_call_id = "call-secret".to_owned();
    let captures = [
        begin(),
        ArchiveOperation::ResultBefore {
            request_id: 8,
            schema_version: INGEST_SCHEMA_VERSION,
            session: session.clone(),
            source_call_id: source_call_id.clone(),
            result: b"{}".to_vec(),
            full_output_path: None,
            captured_at_ms: 3,
        },
        ArchiveOperation::ResultText {
            request_id: 9,
            schema_version: INGEST_SCHEMA_VERSION,
            session: session.clone(),
            source_call_id: source_call_id.clone(),
            text: "result".to_owned(),
            source_completeness: SourceCompleteness::Complete,
            captured_at_ms: 3,
        },
        ArchiveOperation::StageResult {
            request_id: 10,
            schema_version: INGEST_SCHEMA_VERSION,
            session: session.clone(),
            source_call_id: source_call_id.clone(),
            result: b"{}".to_vec(),
            is_error: false,
            captured_at_ms: 3,
        },
        ArchiveOperation::FinishCall {
            request_id: 11,
            schema_version: INGEST_SCHEMA_VERSION,
            session: session.clone(),
            source_call_id: source_call_id.clone(),
            result: b"{}".to_vec(),
            is_error: false,
            require_pre_result: true,
            finished_at_ms: 3,
        },
        ArchiveOperation::UpdateFinalResult {
            request_id: 12,
            schema_version: INGEST_SCHEMA_VERSION,
            session: session.clone(),
            source_call_id: source_call_id.clone(),
            result: b"{}".to_vec(),
            is_error: false,
            finished_at_ms: 3,
        },
        ArchiveOperation::CaptureStreams {
            request_id: 13,
            schema_version: INGEST_SCHEMA_VERSION,
            session: session.clone(),
            source_call_id: source_call_id.clone(),
            captured_at_ms: 3,
            stdout_before_path: "stdout-before".to_owned(),
            stderr_before_path: "stderr-before".to_owned(),
            stdout_after_path: "stdout-after".to_owned(),
            stderr_after_path: "stderr-after".to_owned(),
        },
        ArchiveOperation::CapturePassthroughStreams {
            request_id: 14,
            schema_version: INGEST_SCHEMA_VERSION,
            session,
            source_call_id,
            captured_at_ms: 3,
            stdout_path: "stdout".to_owned(),
            stderr_path: "stderr".to_owned(),
        },
    ];
    for capture in captures {
        assert_eq!(capture.replay_policy(), ReplayPolicy::SafeReplay);
        assert_eq!(
            capture.ends_source_sequence(),
            matches!(
                capture,
                ArchiveOperation::FinishCall { .. } | ArchiveOperation::UpdateFinalResult { .. }
            )
        );
    }

    let prune = ArchiveOperation::PruneBefore {
        request_id: 1,
        schema_version: INGEST_SCHEMA_VERSION,
        timestamp_ms: 10,
    };
    assert_eq!(prune.replay_policy(), ReplayPolicy::UnknownOnDisconnect);
    assert!(!prune.ends_source_sequence());
    assert!(prune.redactions().is_empty());
    assert_eq!(prune.sequence(), 0);
    assert_eq!(prune.source_key().len(), 64);
}

#[test]
fn acknowledgements_keep_success_and_failure_separate() {
    let success = ArchiveAck::success(1, Some("yr_0123456789abcdef0123456789abcdef".to_owned()));
    assert!(success.ok);
    assert!(success.error.is_none());
    let failure = ArchiveAck::failure(2, "failed".to_owned());
    assert!(!failure.ok);
    assert!(failure.archive_ref.is_none());
    assert_eq!(failure.error.as_deref(), Some("failed"));
}

#[test]
fn sources_are_told_apart_by_their_keys() {
    let key = begin().source_key();
    assert_eq!(key.len(), 64);
    assert_eq!(key, begin().source_key());
    let other = ArchiveOperation::StageResult {
        request_id: 7,
        schema_version: INGEST_SCHEMA_VERSION,
        session: session(),
        source_call_id: "call-other".to_owned(),
        result: b"{}".to_vec(),
        is_error: false,
        captured_at_ms: 3,
    };
    assert_ne!(key, other.source_key());
}

#[test]
fn frames_are_read_back_one_after_another() {
    let mut input = encode_frame(b"first", "ingest", MAX_FRAME_BYTES).expect("first");
    assert_eq!(&input[..8], &[0, 0, 0, 0, 0, 0, 0, 5]);
    input.extend(encode_frame(b"second", "ingest", MAX_FRAME_BYTES).expect("second"));
    let FrameStep::Message { body, taken } = next_frame(&input, true, "ingest", MAX_FRAME_BYTES)
    else {
        panic!("no first message");
    };
    assert_eq!(body, b"first");
    assert_eq!(taken, 13);
    let FrameStep::Message { body, taken } =
        next_frame(&input[13..], true, "ingest", MAX_FRAME_BYTES)
    else {
        panic!("no second message");
    };
    assert_eq!(body, b"second");
    assert!(matches!(
        next_frame(&input[13 + taken..], true, "ingest", MAX_FRAME_BYTES),
        FrameStep::End
    ));
    assert!(matches!(
        next_frame(&input[..10], false, "ingest", MAX_FRAME_BYTES),
        FrameStep::Wait
    ));
    assert!(matches!(
        next_frame(&input[..10], true, "ingest", MAX_FRAME_BYTES),
        FrameStep::Fail(_)
    ));
    assert!(matches!(
        next_frame(&[], false, "ingest", MAX_FRAME_BYTES),
        FrameStep::Wait
    ));
}

#[test]
fn frame_lengths_are_bounded() {
    assert!(encode_frame(b"", "ingest", 4).is_err());
    assert!(encode_frame(b"12345", "ingest", 4).is_err());
    assert_eq!(decode_frame_length(&[0, 0, 0, 0, 0, 0, 0, 4], "ingest", 4), Ok(4));
    assert!(decode_frame_length(&[0; 8], "ingest", 4).is_err());
    assert!(decode_frame_length(&[0, 0, 0, 0, 0, 0, 0, 5], "ingest", 4).is_err());
}

#[test]
fn a_lone_frame_has_nothing_behind_it() {
    let mut input = encode_frame(b"{}", "result-reducer", 16).expect("frame");
    assert_eq!(only_frame(&input, "result-reducer", 16).expect("body"), b"{}");
    input.push(0);
    assert!(only_frame(&input, "result-reducer", 16).is_err());
    assert!(only_frame(&input[..9], "result-reducer", 16).is_err());
}
