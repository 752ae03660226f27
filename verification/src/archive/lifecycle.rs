//! What an operation does to the record of its call.
use vstd::prelude::*;

use super::calls::{
    CallModel, Snapshot, SnapshotModel, Stage, StoredCall, Subject, has_snapshot, identity_fault,
    snapshot_place,
};
use super::model::SourceCompleteness;
use super::operations::{PreparedOperationKind, PreparedSnapshot};
use super::payload::PreparedPayload;
use super::reference::{is_archive_ref, validate_archive_ref};
use crate::bytes::{copy, same_bytes};
use crate::text::{decimal, digits, join3, same_text};

verus! {

/// What an operation leaves: the record, the answer, and the digest of contents that may not be
/// needed any more.
#[derive(Debug)]
pub struct Applied {
    pub record: StoredCall,
    pub reply: Option<String>,
    pub released: Option<Vec<u8>>,
}

/// The contents of an [`Applied`].
#[verifier::ext_equal]
pub struct AppliedModel {
    pub record: CallModel,
    pub reply: Option<Seq<char>>,
    pub released: Option<Seq<u8>>,
}

impl View for Applied {
    type V = AppliedModel;

    open spec fn view(&self) -> AppliedModel {
        AppliedModel {
            record: self.record@,
            reply: match self.reply {
                Some(text) => Some(text@),
                None => None,
            },
            released: match self.released {
                Some(sha) => Some(sha@),
                None => None,
            },
        }
    }
}

/// A snapshot of JSON.
pub open spec fn json_snapshot(
    subject: Subject,
    stage: Stage,
    captured_at_ms: i64,
    payload: PreparedPayload,
) -> SnapshotModel {
    SnapshotModel {
        subject,
        stage,
        media_type: "application/json"@,
        completeness: None,
        captured_at_ms,
        payload: payload.sha@,
    }
}

/// A snapshot of output.
pub open spec fn stream_snapshot(
    subject: Subject,
    stage: Stage,
    captured_at_ms: i64,
    stream: PreparedSnapshot,
) -> SnapshotModel {
    SnapshotModel {
        subject,
        stage,
        media_type: stream.media_type@,
        completeness: None,
        captured_at_ms,
        payload: stream.payload.sha@,
    }
}

/// A snapshot of the text that a reducer got.
pub open spec fn text_snapshot(
    completeness: SourceCompleteness,
    captured_at_ms: i64,
    payload: PreparedPayload,
) -> SnapshotModel {
    SnapshotModel {
        subject: Subject::ResultText,
        stage: Stage::Before,
        media_type: "text/plain; charset=utf-8"@,
        completeness: Some(completeness),
        captured_at_ms,
        payload: payload.sha@,
    }
}

/// The record after another snapshot, where the ones before it could be stored.
pub open spec fn also(record: Result<CallModel, Seq<char>>, snapshot: SnapshotModel) -> Result<
    CallModel,
    Seq<char>,
> {
    match record {
        Ok(call) => call.with_snapshot(snapshot),
        Err(error) => Err(error),
    }
}

/// An operation that only stores snapshots.
pub open spec fn storing(record: Result<CallModel, Seq<char>>, reply: Option<Seq<char>>) -> Result<
    AppliedModel,
    Seq<char>,
> {
    match record {
        Ok(call) => Ok(AppliedModel { record: call, reply, released: None }),
        Err(error) => Err(error),
    }
}

/// What a repeated final result is held against: the stored result and how the call ended.
pub open spec fn finalized(
    record: CallModel,
    result: PreparedPayload,
    is_error: bool,
    finished_at_ms: i64,
) -> Result<AppliedModel, Seq<char>> {
    if !has_snapshot(record.snapshots, Subject::ToolResult, Stage::After) {
        Err("could not check finalized tool result: Query returned no rows"@)
    } else if record.is_error is None {
        Err(
            "could not check finalized tool result: Invalid column type Null at index: 1, name: is_error"@,
        )
    } else if record.finished_at_ms is None {
        Err(
            "could not check finalized tool result: Invalid column type Null at index: 2, name: finished_at_ms"@,
        )
    } else if record.executed is None {
        Err(
            "could not check finalized tool result: Invalid column type Null at index: 3, name: executed"@,
        )
    } else {
        let place = snapshot_place(record.snapshots, Subject::ToolResult, Stage::After);
        if record.snapshots[place].payload == result.sha@ && record.is_error == Some(is_error)
            && record.finished_at_ms == Some(finished_at_ms) && record.executed == Some(true) {
            Ok(AppliedModel { record, reply: None, released: None })
        } else {
            Err(
                "tool call "@ + record.call.source_call_id
                    + " was already finalized with different content or metadata"@,
            )
        }
    }
}

/// What an operation on a call does to its record.
pub open spec fn applied(kind: PreparedOperationKind, record: CallModel) -> Result<
    AppliedModel,
    Seq<char>,
> {
    match kind {
        PreparedOperationKind::BeginCall { call, before, after, captured_at_ms, .. } => {
            match identity_fault(record, call@) {
                Some(error) => Err(error),
                None => storing(
                    also(
                        also(
                            Ok(record),
                            json_snapshot(Subject::Input, Stage::Before, captured_at_ms, before),
                        ),
                        json_snapshot(Subject::Input, Stage::After, captured_at_ms, after),
                    ),
                    Some(record.archive_ref),
                ),
            }
        },
        PreparedOperationKind::ResultBefore { result, source_output, captured_at_ms, .. } => {
            let first = also(
                Ok(record),
                json_snapshot(Subject::ToolResult, Stage::Before, captured_at_ms, result),
            );
            storing(
                match source_output {
                    None => first,
                    Some(output) => also(
                        first,
                        stream_snapshot(
                            Subject::SourceOutput,
                            Stage::Before,
                            captured_at_ms,
                            output,
                        ),
                    ),
                },
                None,
            )
        },
        PreparedOperationKind::ResultText { text, completeness, captured_at_ms, .. } => {
            match also(Ok(record), text_snapshot(completeness, captured_at_ms, text)) {
                Err(error) => Err(error),
                Ok(call) => if is_archive_ref(record.archive_ref) {
                    storing(Ok(call), Some(record.archive_ref))
                } else {
                    Err(
                        "archive reference must be yr_ followed by 32 lowercase hexadecimal digits"@,
                    )
                },
            }
        },
        PreparedOperationKind::StageResult { result, is_error, captured_at_ms, .. } => {
            match (record.status_fault("started"@), record.completion_fault(true)) {
                (Some(error), _) => Err(error),
                (None, Some(error)) => Err(error),
                (None, None) => match also(
                    Ok(record),
                    json_snapshot(Subject::ToolResult, Stage::After, captured_at_ms, result),
                ) {
                    Err(error) => Err(error),
                    Ok(call) => storing(
                        Ok(
                            CallModel { is_error: Some(is_error), executed: Some(true), ..call },
                        ),
                        None,
                    ),
                },
            }
        },
        PreparedOperationKind::FinishCall {
            result,
            is_error,
            require_pre_result,
            finished_at_ms,
            ..
        } => {
            match record.completion_fault(require_pre_result) {
                Some(error) => Err(error),
                None => match also(
                    Ok(record),
                    json_snapshot(Subject::ToolResult, Stage::After, finished_at_ms, result),
                ) {
                    Err(error) => Err(error),
                    Ok(call) => storing(
                        Ok(
                            CallModel {
                                status: "finished"@,
                                finished_at_ms: Some(finished_at_ms),
                                is_error: Some(is_error),
                                executed: Some(require_pre_result),
                                ..call
                            },
                        ),
                        None,
                    ),
                },
            }
        },
        PreparedOperationKind::UpdateFinalResult { result, is_error, finished_at_ms, .. } => {
            if record.status == "finished"@ {
                finalized(record, result, is_error, finished_at_ms)
            } else {
                match (record.status_fault("started"@), record.completion_fault(true)) {
                    (Some(error), _) => Err(error),
                    (None, Some(error)) => Err(error),
                    (None, None) => {
                        let snapshot = json_snapshot(
                            Subject::ToolResult,
                            Stage::After,
                            finished_at_ms,
                            result,
                        );
                        if has_snapshot(record.snapshots, Subject::ToolResult, Stage::After) {
                            let place = snapshot_place(
                                record.snapshots,
                                Subject::ToolResult,
                                Stage::After,
                            );
                            Ok(
                                AppliedModel {
                                    record: CallModel {
                                        status: "finished"@,
                                        finished_at_ms: Some(finished_at_ms),
                                        is_error: Some(is_error),
                                        executed: Some(true),
                                        ..record.with_replaced(snapshot)
                                    },
                                    reply: None,
                                    released: Some(record.snapshots[place].payload),
                                },
                            )
                        } else {
                            Err("could not find "@ + "result"@ + "/"@ + "after"@
                                + " snapshot: Query returned no rows"@)
                        }
                    },
                }
            }
        },
        PreparedOperationKind::CaptureStreams {
            captured_at_ms,
            stdout_before,
            stderr_before,
            stdout_after,
            stderr_after,
            ..
        } => storing(
            also(
                also(
                    also(
                        also(
                            Ok(record),
                            stream_snapshot(
                                Subject::Stdout,
                                Stage::Before,
                                captured_at_ms,
                                stdout_before,
                            ),
                        ),
                        stream_snapshot(
                            Subject::Stderr,
                            Stage::Before,
                            captured_at_ms,
                            stderr_before,
                        ),
                    ),
                    stream_snapshot(Subject::Stdout, Stage::After, captured_at_ms, stdout_after),
                ),
                stream_snapshot(Subject::Stderr, Stage::After, captured_at_ms, stderr_after),
            ),
            None,
        ),
        PreparedOperationKind::PruneBefore { .. } => Ok(
            AppliedModel { record, reply: None, released: None },
        ),
    }
}

fn snapshot_of_json(
    subject: Subject,
    stage: Stage,
    captured_at_ms: i64,
    payload: &PreparedPayload,
) -> (snapshot: Snapshot)
    ensures
        snapshot@ == json_snapshot(subject, stage, captured_at_ms, *payload),
{
    Snapshot {
        subject,
        stage,
        media_type: "application/json".to_owned(),
        completeness: None,
        captured_at_ms,
        payload_sha256: copy(payload.sha.as_slice()),
    }
}

fn snapshot_of_stream(
    subject: Subject,
    stage: Stage,
    captured_at_ms: i64,
    stream: &PreparedSnapshot,
) -> (snapshot: Snapshot)
    ensures
        snapshot@ == stream_snapshot(subject, stage, captured_at_ms, *stream),
{
    Snapshot {
        subject,
        stage,
        media_type: stream.media_type.clone(),
        completeness: None,
        captured_at_ms,
        payload_sha256: copy(stream.payload.sha.as_slice()),
    }
}

/// The outcome of an operation on a call.
pub open spec fn is_outcome(
    result: Result<Applied, String>,
    expected: Result<AppliedModel, Seq<char>>,
) -> bool {
    match (result, expected) {
        (Ok(left), Ok(model)) => left@ == model,
        (Err(error), Err(message)) => error@ == message,
        _ => false,
    }
}

/// Check the final result of a call that is finished already.
fn check_finalized(
    record: StoredCall,
    result: &PreparedPayload,
    is_error: bool,
    finished_at_ms: i64,
) -> (outcome: Result<Applied, String>)
    requires
        record@.well_formed(),
    ensures
        is_outcome(outcome, finalized(record@, *result, is_error, finished_at_ms)),
{
    let place = match record.find_snapshot(Subject::ToolResult, Stage::After) {
        Some(place) => place,
        None => {
            return Err(
                "could not check finalized tool result: Query returned no rows".to_owned(),
            );
        },
    };
    let stored_error = match record.is_error {
        Some(value) => value,
        None => {
            return Err(
                "could not check finalized tool result: Invalid column type Null at index: 1, name: is_error".to_owned(),
            );
        },
    };
    let stored_finish = match record.finished_at_ms {
        Some(value) => value,
        None => {
            return Err(
                "could not check finalized tool result: Invalid column type Null at index: 2, name: finished_at_ms".to_owned(),
            );
        },
    };
    let stored_executed = match record.executed {
        Some(value) => value,
        None => {
            return Err(
                "could not check finalized tool result: Invalid column type Null at index: 3, name: executed".to_owned(),
            );
        },
    };
    assert(record@.snapshots[place as int] == record.snapshots@[place as int]@);
    if same_bytes(
        record.snapshots[place].payload_sha256.as_slice(),
        result.sha.as_slice(),
    ) && stored_error == is_error && stored_finish == finished_at_ms && stored_executed {
        return Ok(Applied { record, reply: None, released: None });
    }
    Err(
        join3(
            "tool call ",
            record.call.source_call_id.as_str(),
            " was already finalized with different content or metadata",
        ),
    )
}

/// Apply an operation on a call to its record. Where the record was not found, or the operation is
/// refused, nothing changes.
///
/// # Errors
///
/// Returns an error when the record was not found, when a snapshot is there already with other
/// contents, when the call has another status, or when it lacks what a finished call needs.
pub fn apply_prepared_operation(
    found: Result<StoredCall, String>,
    kind: &PreparedOperationKind,
) -> (result: Result<Applied, String>)
    requires
        !(kind is PruneBefore),
        found matches Ok(record) ==> record@.well_formed(),
    ensures
        match found {
            Err(error) => result == Err::<Applied, String>(error),
            Ok(record) => is_outcome(result, applied(*kind, record@)),
        },
        result matches Ok(left) ==> left.record@.well_formed(),
{
    let mut record = match found {
        Ok(record) => record,
        Err(error) => {
            return Err(error);
        },
    };
    match kind {
        PreparedOperationKind::BeginCall { call, before, after, captured_at_ms, .. } => {
            if let Err(error) = record.check_identity(call) {
                return Err(error);
            }
            let reply = record.archive_ref.clone();
            if let Err(error) = record.store_snapshot(
                snapshot_of_json(Subject::Input, Stage::Before, *captured_at_ms, before),
            ) {
                return Err(error);
            }
            if let Err(error) = record.store_snapshot(
                snapshot_of_json(Subject::Input, Stage::After, *captured_at_ms, after),
            ) {
                return Err(error);
            }
            Ok(Applied { record, reply: Some(reply), released: None })
        },
        PreparedOperationKind::ResultBefore { result, source_output, captured_at_ms, .. } => {
            if let Err(error) = record.store_snapshot(
                snapshot_of_json(Subject::ToolResult, Stage::Before, *captured_at_ms, result),
            ) {
                return Err(error);
            }
            if let Some(output) = source_output {
                if let Err(error) = record.store_snapshot(
                    snapshot_of_stream(
                        Subject::SourceOutput,
                        Stage::Before,
                        *captured_at_ms,
                        output,
                    ),
                ) {
                    return Err(error);
                }
            }
            Ok(Applied { record, reply: None, released: None })
        },
        PreparedOperationKind::ResultText { text, completeness, captured_at_ms, .. } => {
            if let Err(error) = record.store_snapshot(
                Snapshot {
                    subject: Subject::ResultText,
                    stage: Stage::Before,
                    media_type: "text/plain; charset=utf-8".to_owned(),
                    completeness: Some(*completeness),
                    captured_at_ms: *captured_at_ms,
                    payload_sha256: copy(text.sha.as_slice()),
                },
            ) {
                return Err(error);
            }
            if let Err(error) = validate_archive_ref(record.archive_ref.as_str()) {
                return Err(error);
            }
            let reply = record.archive_ref.clone();
            Ok(Applied { record, reply: Some(reply), released: None })
        },
        PreparedOperationKind::StageResult { result, is_error, captured_at_ms, .. } => {
            if let Err(error) = record.require_status("started") {
                return Err(error);
            }
            if let Err(error) = record.validate_completion(true) {
                return Err(error);
            }
            if let Err(error) = record.store_snapshot(
                snapshot_of_json(Subject::ToolResult, Stage::After, *captured_at_ms, result),
            ) {
                return Err(error);
            }
            record.is_error = Some(*is_error);
            record.executed = Some(true);
            Ok(Applied { record, reply: None, released: None })
        },
        PreparedOperationKind::FinishCall {
            result,
            is_error,
            require_pre_result,
            finished_at_ms,
            ..
        } => {
            if let Err(error) = record.validate_completion(*require_pre_result) {
                return Err(error);
            }
            if let Err(error) = record.store_snapshot(
                snapshot_of_json(Subject::ToolResult, Stage::After, *finished_at_ms, result),
            ) {
                return Err(error);
            }
            record.status = "finished".to_owned();
            record.finished_at_ms = Some(*finished_at_ms);
            record.is_error = Some(*is_error);
            record.executed = Some(*require_pre_result);
            Ok(Applied { record, reply: None, released: None })
        },
        PreparedOperationKind::UpdateFinalResult { result, is_error, finished_at_ms, .. } => {
            if same_text(record.status.as_str(), "finished") {
                return check_finalized(record, result, *is_error, *finished_at_ms);
            }
            if let Err(error) = record.require_status("started") {
                return Err(error);
            }
            if let Err(error) = record.validate_completion(true) {
                return Err(error);
            }
            match record.replace_snapshot(
                snapshot_of_json(Subject::ToolResult, Stage::After, *finished_at_ms, result),
            ) {
                Err(error) => Err(error),
                Ok(released) => {
                    record.status = "finished".to_owned();
                    record.finished_at_ms = Some(*finished_at_ms);
                    record.is_error = Some(*is_error);
                    record.executed = Some(true);
                    Ok(Applied { record, reply: None, released: Some(released) })
                },
            }
        },
        PreparedOperationKind::CaptureStreams {
            captured_at_ms,
            stdout_before,
            stderr_before,
            stdout_after,
            stderr_after,
            ..
        } => {
            if let Err(error) = record.store_snapshot(
                snapshot_of_stream(
                    Subject::Stdout,
                    Stage::Before,
                    *captured_at_ms,
                    stdout_before,
                ),
            ) {
                return Err(error);
            }
            if let Err(error) = record.store_snapshot(
                snapshot_of_stream(
                    Subject::Stderr,
                    Stage::Before,
                    *captured_at_ms,
                    stderr_before,
                ),
            ) {
                return Err(error);
            }
            if let Err(error) = record.store_snapshot(
                snapshot_of_stream(Subject::Stdout, Stage::After, *captured_at_ms, stdout_after),
            ) {
                return Err(error);
            }
            if let Err(error) = record.store_snapshot(
                snapshot_of_stream(Subject::Stderr, Stage::After, *captured_at_ms, stderr_after),
            ) {
                return Err(error);
            }
            Ok(Applied { record, reply: None, released: None })
        },
        PreparedOperationKind::PruneBefore { .. } => Ok(
            Applied { record, reply: None, released: None },
        ),
    }
}

/// The call may be removed: it was finished before some time.
pub open spec fn is_prunable(record: CallModel, timestamp_ms: i64) -> bool {
    record.status == "finished"@ && (record.finished_at_ms matches Some(at) && at < timestamp_ms)
}

/// Whether a call may be removed: it was finished before some time.
pub fn prunable(record: &StoredCall, timestamp_ms: i64) -> (answer: bool)
    ensures
        answer == is_prunable(record@, timestamp_ms),
{
    match record.finished_at_ms {
        Some(at) => same_text(record.status.as_str(), "finished") && at < timestamp_ms,
        None => false,
    }
}

/// The answer to an operation that removed some calls.
///
/// # Errors
///
/// Returns an error when their number is too large.
pub fn prune_reply(deleted: u64) -> (result: Result<Option<String>, String>)
    ensures
        if deleted <= i64::MAX {
            result matches Ok(Some(count)) && count@ == digits(deleted as nat)
        } else {
            result matches Err(error) && error@ == "pruned call count does not fit in i64"@
        },
{
    if deleted > i64::MAX as u64 {
        return Err("pruned call count does not fit in i64".to_owned());
    }
    Ok(Some(decimal(deleted)))
}

} // verus!
