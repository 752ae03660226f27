use yarp::archive::calls::{
    InsertOutcome, InsertStep, Snapshot, Stage, StoredCall, Subject, insert_step, merged_start,
};
use yarp::archive::ingest::run_ingest;
use yarp::archive::lifecycle::{apply_prepared_operation, prunable, prune_reply};
use yarp::archive::model::{CallIdentity, SessionIdentity, SourceCompleteness, SourceName};
use yarp::archive::operations::{
    PreparedOperationKind, canonical_json, prepare_operation, source_paths,
};
use yarp::archive::payload::{
    PreparedPayload, check_payload, encode_payload, prepare_payload, restore_payload,
    stream_media_type,
};
use yarp::archive::schema::{
    ReferenceStep, RowCounts, SchemaAction, check_backup_space, check_migrated, check_readable,
    reference_step, schema_action, schema_is_current,
};
use yarp::archive::sources::{
    SourceFacts, StoredContents, choose_sources, require_private_source, require_same_source,
    restore_streams, verified_source,
};
use yarp::archive::verification::{
    ArchiveContents, CallRow, PayloadRow, SCHEMA_VERSION, SnapshotRow, VerifyReport, verify,
};
use yarp::archive_client::check_ingest_version;
use yarp::archive_protocol::{ArchiveOperation, INGEST_SCHEMA_VERSION};
use yarp::frames::{FrameStep, MAX_FRAME_BYTES};

fn session() -> SessionIdentity {
    SessionIdentity {
        agent: "pi".to_owned(),
        account: "test".to_owned(),
        source_session_id: "session-1".to_owned(),
        started_at_ms: Some(10),
    }
}

fn call() -> CallIdentity {
    call_with_id("call-1")
}

fn call_with_id(source_call_id: &str) -> CallIdentity {
    CallIdentity {
        source_call_id: source_call_id.to_owned(),
        tool_name: "read".to_owned(),
        provider: Some("openai".to_owned()),
        model: Some("gpt".to_owned()),
        working_directory: Some("/tmp".to_owned()),
        started_at_ms: 20,
        requires_streams: false,
    }
}

fn shell_call() -> CallIdentity {
    CallIdentity {
        requires_streams: true,
        ..call()
    }
}

/// An archive that keeps its calls and contents in memory.
#[derive(Default)]
struct Memory {
    calls: Vec<StoredCall>,
    payloads: Vec<PreparedPayload>,
}

impl Memory {
    fn apply(
        &mut self,
        operation: ArchiveOperation,
        files: &[&[u8]],
    ) -> Result<Option<String>, String> {
        let files: Vec<Result<Vec<u8>, String>> =
            files.iter().map(|file| Ok(file.to_vec())).collect();
        assert_eq!(files.len(), source_paths(&operation).len());
        let prepared = prepare_operation(operation, &files)?;
        let id = match &prepared.kind {
            PreparedOperationKind::PruneBefore { timestamp_ms } => {
                let before = self.calls.len();
                self.calls.retain(|call| !prunable(call, *timestamp_ms));
                let deleted = before - self.calls.len();
                self.sweep();
                return prune_reply(deleted as u64);
            }
            PreparedOperationKind::BeginCall { call, .. } => call.source_call_id.clone(),
            PreparedOperationKind::ResultBefore { source_call_id, .. }
            | PreparedOperationKind::ResultText { source_call_id, .. }
            | PreparedOperationKind::StageResult { source_call_id, .. }
            | PreparedOperationKind::FinishCall { source_call_id, .. }
            | PreparedOperationKind::UpdateFinalResult { source_call_id, .. }
            | PreparedOperationKind::CaptureStreams { source_call_id, .. } => source_call_id.clone(),
        };
        let place = self.calls.iter().position(|call| call.call.source_call_id == id);
        let found = match (&prepared.kind, place) {
            (_, Some(place)) => Ok(self.calls[place].clone()),
            (PreparedOperationKind::BeginCall { call, .. }, None) => Ok(StoredCall::started(
                format!("yr_{:032x}", self.calls.len() + 1),
                call,
            )),
            _ => Err(format!("unknown tool call {id}")),
        };
        let applied = apply_prepared_operation(found, &prepared.kind)?;
        match place {
            Some(place) => self.calls[place] = applied.record,
            None => self.calls.push(applied.record),
        }
        for payload in prepared.kind.payloads() {
            if !self.payloads.iter().any(|stored| stored.sha == payload.sha) {
                self.payloads.push(payload.clone());
            }
        }
        self.sweep();
        Ok(applied.reply)
    }

    fn is_referenced(&self, payload: &PreparedPayload) -> bool {
        self.calls.iter().any(|call| call.refers_to(&payload.sha))
    }

    fn sweep(&mut self) {
        let kept: Vec<PreparedPayload> = self
            .payloads
            .iter()
            .filter(|payload| self.is_referenced(payload))
            .cloned()
            .collect();
        self.payloads = kept;
    }

    fn begin(&mut self, call: &CallIdentity, before: &str, after: &str) -> Result<String, String> {
        let reply = self.apply(
            ArchiveOperation::BeginCall {
                request_id: 1,
                schema_version: INGEST_SCHEMA_VERSION,
                session: session(),
                call: call.clone(),
                input_before: before.as_bytes().to_vec(),
                input_after: after.as_bytes().to_vec(),
                captured_at_ms: 20,
            },
            &[],
        )?;
        Ok(reply.expect("archive reference"))
    }

    fn result_before(&mut self, result: &str, output: Option<&[u8]>) -> Result<Option<String>, String> {
        let files: Vec<&[u8]> = output.into_iter().collect();
        self.apply(
            ArchiveOperation::ResultBefore {
                request_id: 2,
                schema_version: INGEST_SCHEMA_VERSION,
                session: session(),
                source_call_id: "call-1".to_owned(),
                result: result.as_bytes().to_vec(),
                full_output_path: output.map(|_| "full-output".to_owned()),
                captured_at_ms: 30,
            },
            &files,
        )
    }

    fn result_text(&mut self, text: &str, completeness: SourceCompleteness) -> Result<Option<String>, String> {
        self.apply(
            ArchiveOperation::ResultText {
                request_id: 3,
                schema_version: INGEST_SCHEMA_VERSION,
                session: session(),
                source_call_id: "call-1".to_owned(),
                text: text.to_owned(),
                source_completeness: completeness,
                captured_at_ms: 40,
            },
            &[],
        )
    }

    fn capture_streams(&mut self, streams: [&[u8]; 4]) -> Result<Option<String>, String> {
        self.apply(
            ArchiveOperation::CaptureStreams {
                request_id: 4,
                schema_version: INGEST_SCHEMA_VERSION,
                session: session(),
                source_call_id: "call-1".to_owned(),
                captured_at_ms: 30,
                stdout_before_path: "stdout-before".to_owned(),
                stderr_before_path: "stderr-before".to_owned(),
                stdout_after_path: "stdout-after".to_owned(),
                stderr_after_path: "stderr-after".to_owned(),
            },
            &streams,
        )
    }

    fn stage(&mut self, result: &str) -> Result<Option<String>, String> {
        self.apply(
            ArchiveOperation::StageResult {
                request_id: 5,
                schema_version: INGEST_SCHEMA_VERSION,
                session: session(),
                source_call_id: "call-1".to_owned(),
                result: result.as_bytes().to_vec(),
                is_error: false,
                captured_at_ms: 40,
            },
            &[],
        )
    }

    fn finish(&mut self, result: &str, is_error: bool, require_pre_result: bool) -> Result<Option<String>, String> {
        self.apply(
            ArchiveOperation::FinishCall {
                request_id: 6,
                schema_version: INGEST_SCHEMA_VERSION,
                session: session(),
                source_call_id: "call-1".to_owned(),
                result: result.as_bytes().to_vec(),
                is_error,
                require_pre_result,
                finished_at_ms: 40,
            },
            &[],
        )
    }

    fn update_final(&mut self, result: &str, is_error: bool) -> Result<Option<String>, String> {
        self.apply(
            ArchiveOperation::UpdateFinalResult {
                request_id: 7,
                schema_version: INGEST_SCHEMA_VERSION,
                session: session(),
                source_call_id: "call-1".to_owned(),
                result: result.as_bytes().to_vec(),
                is_error,
                finished_at_ms: 50,
            },
            &[],
        )
    }

    fn prune(&mut self, timestamp_ms: i64) -> Result<Option<String>, String> {
        self.apply(
            ArchiveOperation::PruneBefore {
                request_id: 8,
                schema_version: INGEST_SCHEMA_VERSION,
                timestamp_ms,
            },
            &[],
        )
    }

    fn contents(&self) -> Result<ArchiveContents, String> {
        let mut payload_errors = Vec::new();
        for (row, payload) in self.payloads.iter().enumerate() {
            payload_errors.extend(check_payload(
                row as i64,
                &payload.sha,
                payload.compression(),
                payload.uncompressed_length as i64,
                &payload.stored,
            )?);
        }
        Ok(ArchiveContents {
            integrity: "ok".to_owned(),
            foreign_key_violations: 0,
            version: SCHEMA_VERSION,
            calls: self
                .calls
                .iter()
                .map(|call| CallRow {
                    archive_ref: call.archive_ref.clone(),
                    status: call.status.clone(),
                    requires_streams: i64::from(call.call.requires_streams),
                    finished_at_ms: call.finished_at_ms,
                    is_error: call.is_error.map(i64::from),
                    executed: call.executed.map(i64::from),
                    snapshots: call
                        .snapshots
                        .iter()
                        .map(|snapshot| SnapshotRow {
                            subject: snapshot.subject.as_str().to_owned(),
                            stage: snapshot.stage.as_str().to_owned(),
                            media_type: snapshot.media_type.clone(),
                            completeness: snapshot
                                .completeness
                                .map(|value| value.as_str().to_owned()),
                        })
                        .collect(),
                })
                .collect(),
            loose_snapshots: Vec::new(),
            payloads: self
                .payloads
                .iter()
                .map(|payload| PayloadRow {
                    digest_length: payload.sha.len() as i64,
                    compression: payload.compression().to_owned(),
                    uncompressed_length: payload.uncompressed_length as i64,
                    is_referenced: self.is_referenced(payload),
                })
                .collect(),
            payload_errors,
            directory_mode: 0o40700,
            file_mode: 0o100600,
        })
    }

    fn verify(&self) -> Result<VerifyReport, String> {
        Ok(verify(&self.contents()?))
    }

    fn incomplete_calls(&self) -> usize {
        self.calls.iter().filter(|call| call.status == "started").count()
    }

    fn stored(&self, subject: Subject, stage: Stage) -> StoredContents {
        let call = &self.calls[0];
        let place = call.find_snapshot(subject, stage).expect("snapshot");
        let snapshot = &call.snapshots[place];
        let payload = self
            .payloads
            .iter()
            .find(|payload| payload.sha == snapshot.payload_sha256)
            .expect("payload");
        StoredContents {
            media_type: snapshot.media_type.clone(),
            sha: payload.sha.clone(),
            compression: payload.compression().to_owned(),
            uncompressed_length: payload.uncompressed_length as i64,
            body: payload.stored.clone(),
        }
    }

    fn snapshot(&self, subject: Subject, stage: Stage) -> Vec<u8> {
        let stored = self.stored(subject, stage);
        restore_payload(
            subject.as_str(),
            &stored.sha,
            &stored.compression,
            stored.uncompressed_length,
            &stored.body,
        )
        .expect("contents")
    }

    fn source_names(&self, archive_ref: &str) -> Vec<SourceName> {
        choose_sources(archive_ref, Ok(self.calls[0].clone()))
            .expect("sources")
            .iter()
            .map(|source| source.name)
            .collect()
    }
}

#[test]
fn failed_savepoint_does_not_poison_shared_payload_in_next_request() {
    let mut archive = Memory::default();
    archive.begin(&call_with_id("call-1"), "{}", "{}").expect("existing call");
    let shared = r#"{"shared": "payload"}"#;
    let first = archive.begin(&call_with_id("call-1"), "{}", shared);
    let second = archive.begin(&call_with_id("call-2"), shared, shared);
    assert!(first.is_err());
    assert!(second.is_ok());
    assert_eq!(archive.calls.len(), 2);
    assert!(archive.verify().expect("verify").errors.is_empty());
}

#[test]
fn prepared_replay_is_idempotent_and_conflicts_on_changed_content() {
    let mut archive = Memory::default();
    let first = archive.begin(&call(), r#"{"value": 1}"#, r#"{"value": 1}"#).expect("first commit");
    let replay = archive.begin(&call(), r#"{"value": 1}"#, r#"{"value": 1}"#);
    assert_eq!(replay, Ok(first));
    let conflict = archive.begin(&call(), r#"{"value": 2}"#, r#"{"value": 2}"#);
    assert!(conflict.is_err());
    assert_eq!(archive.calls.len(), 1);
}

#[test]
fn prepared_batch_covers_the_complete_shell_call_lifecycle() {
    let mut archive = Memory::default();
    archive.begin(&shell_call(), r#"{"cmd": "test"}"#, r#"{"cmd": "test"}"#).expect("begin");
    archive
        .capture_streams([b"stdout raw", b"stderr raw", b"stdout short", b"stderr short"])
        .expect("streams");
    archive
        .result_before(r#"{"content": "raw"}"#, Some(b"source output"))
        .expect("result before");
    archive
        .result_text("exact visible text", SourceCompleteness::Complete)
        .expect("result text");
    archive.stage(r#"{"content": "staged"}"#).expect("stage");
    archive.update_final(r#"{"content": "final"}"#, false).expect("final");
    assert_eq!(archive.incomplete_calls(), 0);
    assert!(archive.verify().expect("verify").errors.is_empty());
}

#[test]
fn prepared_prune_uses_the_broker_transaction_path() {
    let mut archive = Memory::default();
    archive.begin(&call(), "{}", "{}").expect("begin");
    archive.finish(r#"{"error": "blocked"}"#, true, false).expect("finish");
    assert_eq!(archive.prune(41), Ok(Some("1".to_owned())));
    assert_eq!(archive.calls.len(), 0);
}

#[test]
fn result_before_replay_rejects_changed_full_output_path() {
    let mut archive = Memory::default();
    archive.begin(&call(), "{}", "{}").expect("begin");
    assert!(archive.result_before(r#"{"content": "visible"}"#, Some(b"first")).is_ok());
    assert!(archive.result_before(r#"{"content": "visible"}"#, Some(b"second")).is_err());
}

#[test]
fn stores_and_verifies_a_complete_call() {
    let mut archive = Memory::default();
    archive.begin(&call(), r#"{"path": "file"}"#, r#"{"path": "file"}"#).expect("begin");
    archive.result_before(r#"{"content": "raw"}"#, None).expect("before");
    archive.finish(r#"{"content": "pruned"}"#, false, true).expect("finish");
    assert_eq!(archive.calls.len(), 1);
    assert_eq!(archive.incomplete_calls(), 0);
    assert!(archive.payloads.iter().map(|payload| payload.uncompressed_length).sum::<u64>() > 0);
    assert!(archive.verify().expect("verify").errors.is_empty());
}

#[test]
fn finalizes_the_staged_result_after_other_hooks() {
    let mut archive = Memory::default();
    archive.begin(&call(), "{}", "{}").expect("begin");
    archive.result_before(r#"{"content": "before"}"#, None).expect("before");
    archive.stage(r#"{"content": "provisional"}"#).expect("stage");
    let staged_report = archive.verify().expect("verify staged call");
    assert_eq!(staged_report.incomplete_calls, 1);
    assert!(staged_report.errors.is_empty());
    archive.update_final(r#"{"content": "final"}"#, true).expect("update final");
    archive
        .update_final(r#"{"content": "final"}"#, true)
        .expect("repeat committed final update");
    assert_eq!(archive.snapshot(Subject::ToolResult, Stage::After), br#"{"content":"final"}"#);
    let stored = &archive.calls[0];
    assert_eq!((stored.is_error, stored.finished_at_ms), (Some(true), Some(50)));
    assert!(archive.verify().expect("verify").errors.is_empty());
}

#[test]
fn deduplicates_unchanged_snapshots() {
    let mut archive = Memory::default();
    archive.begin(&call(), r#"{"same": true}"#, r#"{"same": true}"#).expect("begin");
    assert_eq!(archive.payloads.len(), 1);
}

#[test]
fn duplicate_operations_are_idempotent_but_conflicts_fail() {
    let mut archive = Memory::default();
    let value = r#"{"same": true}"#;
    archive.begin(&call(), value, value).expect("begin");
    archive.begin(&call(), value, value).expect("retry");
    let error = archive
        .begin(&call(), r#"{"different": true}"#, value)
        .expect_err("conflict");
    assert!(error.contains("different content"));
}

#[test]
fn marks_interrupted_calls_without_failing_verification() {
    let mut archive = Memory::default();
    archive.begin(&call(), "{}", "{}").expect("begin");
    let report = archive.verify().expect("verify");
    assert_eq!(report.incomplete_calls, 1);
    assert!(report.errors.is_empty());
}

#[test]
fn stores_binary_and_text_streams() {
    let mut archive = Memory::default();
    let archive_ref = archive.begin(&call(), "{}", "{}").expect("begin");
    archive
        .capture_streams([b"hello\n", &[0xff, 0x00], b"hello\n", b"short"])
        .expect("streams");
    let media: Vec<String> = archive.calls[0]
        .snapshots
        .iter()
        .filter(|snapshot| matches!(snapshot.subject, Subject::Stdout | Subject::Stderr))
        .map(|snapshot| snapshot.media_type.clone())
        .collect();
    assert!(media.contains(&"application/octet-stream".to_owned()));
    assert!(media.contains(&"text/plain; charset=utf-8".to_owned()));

    archive
        .result_text("capped wrapped summary\n", SourceCompleteness::Unknown)
        .expect("wrapped summary fallback");
    assert_eq!(
        archive.source_names(&archive_ref),
        vec![SourceName::Stdout, SourceName::Stderr]
    );
}

#[test]
fn stores_exact_source_full_output_with_the_result() {
    let mut archive = Memory::default();
    let archive_ref = archive.begin(&call(), "{}", "{}").expect("begin");
    let expected = b"complete output\n\xff";
    archive
        .result_before(r#"{"content": "truncated"}"#, Some(expected))
        .expect("result before");
    assert_eq!(archive.snapshot(Subject::SourceOutput, Stage::Before), expected);

    archive
        .result_text("exact host text\n", SourceCompleteness::Incomplete)
        .expect("result text");
    let chosen = choose_sources(&archive_ref, Ok(archive.calls[0].clone())).expect("sources");
    assert_eq!(chosen.len(), 1);
    assert_eq!(chosen[0].name, SourceName::ResultText);
    let source = verified_source(chosen[0], &archive.stored(Subject::ResultText, Stage::Before))
        .expect("source");
    assert_eq!(source.body, b"exact host text\n");
}

#[test]
fn prunes_only_finished_calls() {
    let mut archive = Memory::default();
    archive.begin(&call(), "{}", "{}").expect("begin");
    assert_eq!(archive.prune(50), Ok(Some("0".to_owned())));
    archive.finish("{}", false, false).expect("finish");
    assert_eq!(archive.prune(40), Ok(Some("0".to_owned())));
    assert_eq!(archive.prune(50), Ok(Some("1".to_owned())));
    assert_eq!(archive.calls.len(), 0);
    assert!(archive.payloads.is_empty());
}

#[test]
fn result_text_is_on_demand_and_canonical_source_selection_is_stable() {
    let mut archive = Memory::default();
    let archive_ref = archive.begin(&call(), "{}", "{}").expect("begin");
    let repeated_ref = archive
        .result_text("first\nerror\nlast\n", SourceCompleteness::Incomplete)
        .expect("result text");
    assert_eq!(Some(archive_ref.clone()), repeated_ref);
    let chosen = choose_sources(&archive_ref, Ok(archive.calls[0].clone())).expect("sources");
    assert_eq!(chosen.len(), 1);
    let source = verified_source(chosen[0], &archive.stored(Subject::ResultText, Stage::Before))
        .expect("source");
    assert_eq!(source.name, SourceName::ResultText);
    assert_eq!(source.completeness, SourceCompleteness::Incomplete);
    assert_eq!(source.body, b"first\nerror\nlast\n");
    assert!(archive.verify().expect("verify").errors.is_empty());
}

#[test]
fn rejects_newer_schema_versions() {
    let error = schema_action(SCHEMA_VERSION + 1).expect_err("newer version error");
    assert!(error.contains("newer than supported"));
}

#[test]
fn compresses_large_repetitive_payloads() {
    let mut archive = Memory::default();
    let value = format!("{{\"output\": \"{}\"}}", "x".repeat(32 * 1024));
    archive.begin(&call(), &value, &value).expect("begin");
    assert_eq!(archive.payloads[0].compression(), "zstd");
    assert!(archive.payloads[0].stored_length() < archive.payloads[0].uncompressed_length);
}

#[test]
fn keeps_small_payloads_uncompressed() {
    let mut archive = Memory::default();
    archive
        .begin(&call(), r#"{"value": "short"}"#, r#"{"value": "short"}"#)
        .expect("begin");
    assert_eq!(archive.payloads[0].compression(), "none");
}

#[test]
fn detects_corrupt_compressed_payloads() {
    let mut archive = Memory::default();
    let value = format!("{{\"output\": \"{}\"}}", "x".repeat(32 * 1024));
    archive.begin(&call(), &value, &value).expect("begin");
    archive.payloads[0].stored = vec![0];
    let error = archive.verify().expect_err("corruption");
    assert!(error.contains("payload"));
}

#[test]
fn restore_rejects_corrupt_payloads_before_writing_output() {
    let mut archive = Memory::default();
    archive.begin(&shell_call(), "{}", "{}").expect("begin");
    archive
        .capture_streams([b"raw stdout", b"raw stderr", b"after stdout", b"after stderr"])
        .expect("streams");
    let mut stdout = archive.stored(Subject::Stdout, Stage::Before);
    let stderr = archive.stored(Subject::Stderr, Stage::Before);
    assert_eq!(
        restore_streams(&stdout, &stderr),
        Ok((b"raw stdout".to_vec(), b"raw stderr".to_vec()))
    );
    stdout.body = b"BAD stdout".to_vec();
    let error = restore_streams(&stdout, &stderr).expect_err("corrupt restore");
    assert!(error.contains("integrity verification"));
}

#[test]
fn verification_rejects_values_inserted_without_check_constraints() {
    let mut archive = Memory::default();
    archive.begin(&call(), "{}", "{}").expect("begin");
    let mut contents = archive.contents().expect("contents");
    let mut other = contents.calls[0].snapshots[0].clone();
    other.subject = "other".to_owned();
    contents.calls[0].snapshots.push(other);
    let report = verify(&contents);
    assert!(report.errors.iter().any(|error| error.contains("invalid subject")));
}

#[test]
fn refuses_to_finish_executed_calls_without_required_snapshots() {
    let mut archive = Memory::default();
    archive.begin(&call(), "{}", "{}").expect("begin");
    let error = archive.finish("{}", false, true).expect_err("missing pre-result");
    assert!(error.contains("missing its pre-YARP result"));
    assert_eq!(archive.incomplete_calls(), 1);
}

#[test]
fn finishes_preflight_rejected_shell_calls_without_streams() {
    let mut archive = Memory::default();
    archive.begin(&shell_call(), "{}", "{}").expect("begin");
    archive
        .finish(r#"{"error": "blocked"}"#, true, false)
        .expect("finish preflight rejection");
    assert!(archive.verify().expect("verify").errors.is_empty());
}

#[test]
fn requires_a_pre_result_for_executed_shell_calls() {
    let mut archive = Memory::default();
    archive.begin(&shell_call(), "{}", "{}").expect("begin");
    archive
        .capture_streams([b"stdout", b"stderr", b"stdout", b"stderr"])
        .expect("streams");
    let error = archive.finish("{}", false, true).expect_err("missing pre-result");
    assert!(error.contains("missing its pre-YARP result"));
}

#[test]
fn requires_every_shell_stream_before_finishing() {
    let mut archive = Memory::default();
    archive.begin(&shell_call(), "{}", "{}").expect("begin");
    archive.result_before("{}", None).expect("before result");
    let error = archive.finish("{}", false, true).expect_err("missing streams");
    assert!(error.contains("found 0 of 4"));
    assert_eq!(archive.incomplete_calls(), 1);
}

#[test]
fn rejects_truncated_and_oversized_ingest_frames() {
    let FrameStep::Fail(truncated) = run_ingest(&[0, 1], true) else {
        panic!("truncated length");
    };
    assert!(truncated.contains("truncated ingest frame length"));

    let oversized = (MAX_FRAME_BYTES + 1).to_be_bytes();
    let FrameStep::Fail(error) = run_ingest(&oversized, true) else {
        panic!("oversized frame");
    };
    assert!(error.contains("invalid ingest frame length"));
}

#[test]
fn rejects_unsupported_ingest_schema_versions() {
    let operation = ArchiveOperation::BeginCall {
        request_id: 1,
        schema_version: 2,
        session: session(),
        call: call(),
        input_before: b"{}".to_vec(),
        input_after: b"{}".to_vec(),
        captured_at_ms: 20,
    };
    let error = check_ingest_version(&operation).expect_err("version");
    assert!(error.contains("unsupported ingest"));
}

#[test]
fn bytes_that_are_no_frame_are_refused_with_the_reason() {
    assert_eq!(
        restore_payload("stdout", &[0; 32], "zstd", 9, b"not zstd!").unwrap_err(),
        "could not read stdout payload: Unknown frame descriptor"
    );
    assert_eq!(
        check_payload(7, &[0; 32], "zstd", 9, b"not zstd!").unwrap_err(),
        "could not read payload 7: Unknown frame descriptor"
    );
    let payload = prepare_payload(&[b'a'; 4_000]).expect("payload");
    assert_eq!(payload.compression(), "zstd");
    assert_eq!(
        restore_payload(
            "stderr",
            &payload.sha,
            "zstd",
            4_000,
            &payload.stored[..payload.stored.len() - 1],
        )
        .unwrap_err(),
        "could not read stderr payload: incomplete frame"
    );
}

#[test]
fn json_is_stored_in_its_canonical_form() {
    assert_eq!(
        canonical_json(br#"{ "b": [1, 2.0], "a": "A" }"#).expect("canonical"),
        br#"{"a":"A","b":[1,2]}"#
    );
    assert_eq!(
        canonical_json(b"{").unwrap_err(),
        "could not canonicalize JSON payload: EOF while parsing an object at line 1 column 1"
    );
    assert_eq!(
        canonical_json(b"1 2").unwrap_err(),
        "could not canonicalize JSON payload: trailing characters at line 1 column 3"
    );
}

#[test]
fn contents_are_restored_as_they_were() {
    for contents in [
        b"".to_vec(),
        b"short".to_vec(),
        vec![0_u8; 70_000],
        (0..40_000_u32).map(|index| (index % 251) as u8).collect(),
    ] {
        let payload = prepare_payload(&contents).expect("payload");
        assert_eq!(
            restore_payload(
                "stream",
                &payload.sha,
                payload.compression(),
                payload.uncompressed_length as i64,
                &payload.stored,
            )
            .expect("contents"),
            contents
        );
        assert!(
            restore_payload(
                "stream",
                &payload.sha,
                payload.compression(),
                payload.uncompressed_length as i64 + 1,
                &payload.stored,
            )
            .is_err()
        );
    }
    assert_eq!(stream_media_type(b"text"), "text/plain; charset=utf-8");
    assert_eq!(stream_media_type(&[0xff]), "application/octet-stream");
}

#[test]
fn a_payload_is_named_by_its_digest() {
    let payload = prepare_payload(b"abc").expect("payload");
    assert_eq!(
        yarp::digest::hex(&payload.sha),
        "ba7816bf8f01cfea414140de5dae2223b00361a396177a9cb410ff61f20015ad"
    );
}

#[test]
fn a_call_keeps_who_made_it() {
    let mut archive = Memory::default();
    archive.begin(&call(), "{}", "{}").expect("begin");
    let other = CallIdentity {
        tool_name: "write".to_owned(),
        ..call()
    };
    assert!(archive.begin(&other, "{}", "{}").is_err());
    assert!(archive.calls[0].has(Subject::Input, Stage::Before));
    assert!(!archive.calls[0].has(Subject::Stdout, Stage::Before));
    assert_eq!(merged_start(Some(5), Some(3)), Some(5));
    assert_eq!(merged_start(None, Some(3)), Some(3));
    assert_eq!(merged_start(Some(5), None), Some(5));
}

#[test]
fn a_taken_reference_is_drawn_again() {
    assert!(matches!(insert_step(1, InsertOutcome::Stored(1)), InsertStep::Done));
    assert!(matches!(insert_step(1, InsertOutcome::Conflict), InsertStep::Retry));
    assert!(matches!(insert_step(3, InsertOutcome::Conflict), InsertStep::Fail(_)));
    assert!(matches!(
        insert_step(1, InsertOutcome::Failed("disk".to_owned())),
        InsertStep::Fail(_)
    ));
    assert!(matches!(reference_step(0, 0), ReferenceStep::Done));
    assert!(matches!(reference_step(1, 0), ReferenceStep::Redraw));
}

#[test]
fn schemas_are_told_apart() {
    assert_eq!(schema_action(0), Ok(SchemaAction::Initialize));
    assert_eq!(schema_action(1), Ok(SchemaAction::Update));
    assert!(schema_action(-1).is_err());
    assert!(check_readable(1, Ok(true)).is_ok());
    assert!(check_readable(1, Ok(false)).is_err());
    assert!(check_readable(2, Ok(true)).is_err());
    let sql = "subject IN ('input', 'result', 'result_text')";
    assert_eq!(schema_is_current(false, false, sql), Ok(false));
    assert!(schema_is_current(true, false, sql).is_err());
    assert!(check_backup_space(10, 5).is_err());
    assert!(check_backup_space(10, 1_000_000_000).is_ok());
    let counts = |calls: u64| RowCounts { calls, snapshots: 4 };
    assert!(check_migrated(counts(2), counts(2), 0, 0).is_ok());
    assert!(check_migrated(counts(2), counts(1), 0, 0).is_err());
    assert!(check_migrated(counts(2), counts(2), 1, 0).is_err());
    assert!(check_migrated(counts(2), counts(2), 0, 1).is_err());
}

#[test]
fn source_files_are_private_and_stay_the_same() {
    let facts = SourceFacts {
        is_symlink: false,
        is_regular: true,
        owner: 1_000,
        mode: 0o100600,
        device: 1,
        inode: 2,
        length: 3,
        modified_s: 4,
        modified_ns: 5,
    };
    assert!(require_private_source(&facts, 1_000).is_ok());
    assert!(require_private_source(&facts, 1_001).is_err());
    let public = SourceFacts {
        mode: 0o100644,
        ..facts
    };
    assert!(require_private_source(&public, 1_000).is_err());
    let grown = SourceFacts { length: 4, ..facts };
    assert!(require_same_source(&facts, &facts).is_ok());
    assert!(require_same_source(&facts, &grown).is_err());
}

#[test]
fn a_row_holds_the_lengths_of_its_payload() {
    let payload = prepare_payload(&[b'x'; 4096]).expect("payload");
    let (stored, length) = payload.row_lengths().expect("lengths");
    assert_eq!(length, 4096);
    assert_eq!(stored, payload.stored.len() as i64);
    let endless = PreparedPayload {
        uncompressed_length: u64::MAX,
        ..payload
    };
    assert_eq!(
        endless.row_lengths().unwrap_err(),
        "payload is too large: 18446744073709551615 bytes"
    );
}

#[test]
fn only_the_same_snapshot_is_held() {
    let mut record = StoredCall::started(format!("yr_{:032x}", 1), &call());
    let snapshot = Snapshot {
        subject: Subject::Input,
        stage: Stage::Before,
        media_type: "application/json".to_owned(),
        completeness: None,
        captured_at_ms: 5,
        payload_sha256: vec![7; 32],
    };
    assert!(!record.holds_snapshot(&snapshot));
    record.store_snapshot(snapshot.clone()).expect("stored");
    assert!(record.holds_snapshot(&snapshot));
    assert!(!record.holds_snapshot(&Snapshot {
        captured_at_ms: 6,
        ..snapshot
    }));
    assert!(record.refers_to(&[7; 32]));
    assert!(!record.refers_to(&[8; 32]));
}

#[test]
fn contents_are_encoded_alike_with_and_without_a_bound() {
    for contents in [&b"short"[..], &[b'x'; 4096]] {
        let encoded = encode_payload(contents).expect("encoded");
        let prepared = prepare_payload(contents).expect("prepared");
        assert_eq!(encoded.sha, prepared.sha);
        assert_eq!(encoded.stored, prepared.stored);
        assert_eq!(encoded.uncompressed_length, contents.len() as u64);
        assert!(encoded.stored.len() <= contents.len());
    }
}
