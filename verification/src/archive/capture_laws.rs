//! What the archive holds of a call after each operation.
use vstd::prelude::*;
use vstd::utf8::encode_utf8;

use super::calls::{CallModel, SnapshotModel, Stage, Subject, has_snapshot, is_of, snapshot_place};
use super::lifecycle::{applied, is_prunable};
use super::model::{SourceCompleteness, SourceName};
use super::operations::{
    Part, PreparedArchiveOperation, PreparedOperationKind, are_parts_of, canonical_form,
    is_file_part, is_preparation, json_of, paths_of,
};
use super::payload::PreparedPayload;
use super::sources::searchable;
use crate::archive_protocol::ArchiveOperation;
use crate::digest::sha256;

verus! {

/// The payload is that of some contents: it has their digest and their length.
pub open spec fn stands_for(payload: PreparedPayload, contents: Seq<u8>) -> bool {
    payload.sha@ == sha256(contents) && payload.uncompressed_length == contents.len()
}

/// The payload is that of JSON in canonical form.
pub open spec fn stands_for_json(payload: PreparedPayload, json: Seq<u8>) -> bool {
    canonical_form(json) matches Ok(canonical) && stands_for(payload, canonical)
}

/// What was read of the files of an operation is what they hold.
pub open spec fn were_read(
    files: Seq<Result<Vec<u8>, String>>,
    paths: Seq<Seq<char>>,
    disk: spec_fn(Seq<char>) -> Seq<u8>,
) -> bool {
    &&& files.len() == paths.len()
    &&& forall|i: int|
        0 <= i < files.len() ==> (#[trigger] files[i] matches Ok(bytes) && bytes@ == disk(paths[i]))
}

/// Each field of a prepared operation holds what the operation says of it. In particular each
/// stream holds what is in its own file.
pub open spec fn keeps_what_it_was_given(
    kind: PreparedOperationKind,
    operation: ArchiveOperation,
    disk: spec_fn(Seq<char>) -> Seq<u8>,
) -> bool {
    match operation {
        ArchiveOperation::BeginCall { input_before, input_after, .. } => kind matches PreparedOperationKind::BeginCall {
            before,
            after,
            ..
        } && stands_for_json(before, input_before@) && stands_for_json(after, input_after@),
        ArchiveOperation::ResultBefore { result, full_output_path, .. } => kind matches PreparedOperationKind::ResultBefore {
            result: stored,
            source_output,
            ..
        } && stands_for_json(stored, result@) && (full_output_path is Some <==> source_output is Some)
            && (full_output_path matches Some(path) ==> stands_for(
            source_output->0.payload,
            disk(path@),
        )),
        ArchiveOperation::ResultText { text, source_completeness, .. } => kind matches PreparedOperationKind::ResultText {
            text: stored,
            completeness,
            ..
        } && stands_for(stored, encode_utf8(text@)) && completeness == source_completeness,
        ArchiveOperation::StageResult { result, is_error, .. } => kind matches PreparedOperationKind::StageResult {
            result: stored,
            is_error: error,
            ..
        } && stands_for_json(stored, result@) && error == is_error,
        ArchiveOperation::FinishCall { result, is_error, require_pre_result, finished_at_ms, .. } => kind matches PreparedOperationKind::FinishCall {
            result: stored,
            is_error: error,
            require_pre_result: executed,
            finished_at_ms: at,
            ..
        } && stands_for_json(stored, result@) && error == is_error && executed
            == require_pre_result && at == finished_at_ms,
        ArchiveOperation::UpdateFinalResult { result, is_error, finished_at_ms, .. } => kind matches PreparedOperationKind::UpdateFinalResult {
            result: stored,
            is_error: error,
            finished_at_ms: at,
            ..
        } && stands_for_json(stored, result@) && error == is_error && at == finished_at_ms,
        ArchiveOperation::CaptureStreams {
            stdout_before_path,
            stderr_before_path,
            stdout_after_path,
            stderr_after_path,
            ..
        } => kind matches PreparedOperationKind::CaptureStreams {
            stdout_before,
            stderr_before,
            stdout_after,
            stderr_after,
            ..
        } && stands_for(stdout_before.payload, disk(stdout_before_path@)) && stands_for(
            stderr_before.payload,
            disk(stderr_before_path@),
        ) && stands_for(stdout_after.payload, disk(stdout_after_path@)) && stands_for(
            stderr_after.payload,
            disk(stderr_after_path@),
        ),
        ArchiveOperation::CapturePassthroughStreams { stdout_path, stderr_path, .. } => kind matches PreparedOperationKind::CaptureStreams {
            stdout_before,
            stderr_before,
            stdout_after,
            stderr_after,
            ..
        } && stands_for(stdout_before.payload, disk(stdout_path@)) && stands_for(
            stderr_before.payload,
            disk(stderr_path@),
        ) && stands_for(stdout_after.payload, disk(stdout_path@)) && stands_for(
            stderr_after.payload,
            disk(stderr_path@),
        ),
        ArchiveOperation::PruneBefore { timestamp_ms, .. } => kind matches PreparedOperationKind::PruneBefore {
            timestamp_ms: at,
        } && at == timestamp_ms,
    }
}

/// An operation that was prepared with the contents of the files that it lists holds, field by
/// field, what it was given. `disk` tells what each file holds.
pub proof fn lemma_prepared_keeps_what_it_was_given(
    operation: ArchiveOperation,
    files: Seq<Result<Vec<u8>, String>>,
    parts: Seq<Part>,
    prepared: PreparedArchiveOperation,
    disk: spec_fn(Seq<char>) -> Seq<u8>,
)
    requires
        were_read(files, paths_of(operation), disk),
        are_parts_of(parts, operation, files),
        is_preparation(Ok(prepared), operation, parts),
    ensures
        keeps_what_it_was_given(prepared.kind, operation, disk),
{
    let json = json_of(operation);
    assert forall|i: int| 0 <= i < files.len() && !(operation is ResultText) implies (
    #[trigger] files[i] matches Ok(bytes) && parts[json.len() + i].contents() == Ok::<
        Seq<u8>,
        Seq<char>,
    >(disk(paths_of(operation)[i]))) by {
        assert(is_file_part(parts[json.len() + i], files[i]));
    }
    match operation {
        ArchiveOperation::CaptureStreams { .. } => {
            assert(files[0] is Ok && files[1] is Ok && files[2] is Ok && files[3] is Ok);
        },
        ArchiveOperation::CapturePassthroughStreams { .. } => {
            assert(files[0] is Ok && files[1] is Ok && files[2] is Ok && files[3] is Ok);
        },
        ArchiveOperation::ResultBefore { full_output_path: Some(path), .. } => {
            assert(files[0] is Ok);
            assert(parts[0] is Json);
        },
        ArchiveOperation::BeginCall { .. } => {
            assert(parts[0] is Json && parts[1] is Json);
        },
        ArchiveOperation::ResultText { .. } => {},
        ArchiveOperation::PruneBefore { .. } => {},
        _ => {
            assert(parts[0] is Json);
        },
    }
}

/// The record shows a subject at a stage with contents of this digest.
pub open spec fn shows(record: CallModel, subject: Subject, stage: Stage, digest: Seq<u8>) -> bool {
    exists|i: int|
        0 <= i < record.snapshots.len() && (#[trigger] record.snapshots[i]).subject == subject
            && record.snapshots[i].stage == stage && record.snapshots[i].payload == digest
}

proof fn lemma_stored_is_shown(record: CallModel, snapshot: SnapshotModel)
    ensures
        record.with_snapshot(snapshot) matches Ok(after) ==> {
            &&& shows(after, snapshot.subject, snapshot.stage, snapshot.payload)
            &&& forall|subject: Subject, stage: Stage, digest: Seq<u8>|
                shows(record, subject, stage, digest) ==> #[trigger] shows(
                    after,
                    subject,
                    stage,
                    digest,
                )
            &&& after.status == record.status && after.call == record.call
        },
{
    if let Ok(after) = record.with_snapshot(snapshot) {
        if has_snapshot(record.snapshots, snapshot.subject, snapshot.stage) {
            let place = snapshot_place(record.snapshots, snapshot.subject, snapshot.stage);
            assert(is_of(record.snapshots[place], snapshot.subject, snapshot.stage));
        } else {
            assert(after.snapshots[record.snapshots.len() as int] == snapshot);
            assert forall|subject: Subject, stage: Stage, digest: Seq<u8>|
                shows(record, subject, stage, digest) implies #[trigger] shows(
                after,
                subject,
                stage,
                digest,
            ) by {
                let i = choose|i: int|
                    0 <= i < record.snapshots.len() && (#[trigger] record.snapshots[i]).subject
                        == subject && record.snapshots[i].stage == stage
                        && record.snapshots[i].payload == digest;
                assert(after.snapshots[i] == record.snapshots[i]);
            }
        }
    }
}

/// What the record of a call shows after an operation.
pub open spec fn record_shows(left: CallModel, kind: PreparedOperationKind) -> bool {
    match kind {
        PreparedOperationKind::BeginCall { before, after, .. } => shows(
            left,
            Subject::Input,
            Stage::Before,
            before.sha@,
        ) && shows(left, Subject::Input, Stage::After, after.sha@),
        PreparedOperationKind::ResultBefore { result, source_output, .. } => shows(
            left,
            Subject::ToolResult,
            Stage::Before,
            result.sha@,
        ) && (source_output matches Some(output) ==> shows(
            left,
            Subject::SourceOutput,
            Stage::Before,
            output.payload.sha@,
        )),
        PreparedOperationKind::ResultText { text, .. } => shows(
            left,
            Subject::ResultText,
            Stage::Before,
            text.sha@,
        ),
        PreparedOperationKind::StageResult { result, is_error, .. } => shows(
            left,
            Subject::ToolResult,
            Stage::After,
            result.sha@,
        ) && left.status == "started"@ && left.is_error == Some(is_error),
        PreparedOperationKind::FinishCall {
            result,
            is_error,
            require_pre_result,
            finished_at_ms,
            ..
        } => shows(left, Subject::ToolResult, Stage::After, result.sha@) && left.status
            == "finished"@ && left.is_error == Some(is_error) && left.finished_at_ms == Some(
            finished_at_ms,
        ) && left.executed == Some(require_pre_result),
        PreparedOperationKind::UpdateFinalResult { result, is_error, finished_at_ms, .. } => shows(
            left,
            Subject::ToolResult,
            Stage::After,
            result.sha@,
        ) && left.status == "finished"@ && left.is_error == Some(is_error) && left.finished_at_ms
            == Some(finished_at_ms) && left.executed == Some(true),
        PreparedOperationKind::CaptureStreams {
            stdout_before,
            stderr_before,
            stdout_after,
            stderr_after,
            ..
        } => shows(left, Subject::Stdout, Stage::Before, stdout_before.payload.sha@) && shows(
            left,
            Subject::Stderr,
            Stage::Before,
            stderr_before.payload.sha@,
        ) && shows(left, Subject::Stdout, Stage::After, stdout_after.payload.sha@) && shows(
            left,
            Subject::Stderr,
            Stage::After,
            stderr_after.payload.sha@,
        ),
        PreparedOperationKind::PruneBefore { .. } => true,
    }
}

/// After an operation, the record of its call shows what the operation holds, each under its own
/// subject and stage, and says how the call ended. What other operations stored is still there,
/// except for a final result that is replaced.
pub proof fn lemma_record_shows_what_was_stored(kind: PreparedOperationKind, record: CallModel)
    requires
        record.well_formed(),
    ensures
        applied(kind, record) matches Ok(left) ==> {
            &&& record_shows(left.record, kind)
            &&& left.record.call == record.call
            &&& left.record.archive_ref == record.archive_ref
            &&& forall|subject: Subject, stage: Stage, digest: Seq<u8>|
                shows(record, subject, stage, digest) && !(kind is UpdateFinalResult && subject
                    == Subject::ToolResult && stage == Stage::After) ==> #[trigger] shows(
                    left.record,
                    subject,
                    stage,
                    digest,
                )
        },
{
    if let Ok(left) = applied(kind, record) {
        match kind {
            PreparedOperationKind::BeginCall { before, after, captured_at_ms, .. } => {
                let first = super::lifecycle::json_snapshot(
                    Subject::Input,
                    Stage::Before,
                    captured_at_ms,
                    before,
                );
                lemma_stored_is_shown(record, first);
                lemma_stored_is_shown(
                    record.with_snapshot(first)->Ok_0,
                    super::lifecycle::json_snapshot(
                        Subject::Input,
                        Stage::After,
                        captured_at_ms,
                        after,
                    ),
                );
            },
            PreparedOperationKind::ResultBefore { result, source_output, captured_at_ms, .. } => {
                let first = super::lifecycle::json_snapshot(
                    Subject::ToolResult,
                    Stage::Before,
                    captured_at_ms,
                    result,
                );
                lemma_stored_is_shown(record, first);
                if let Some(output) = source_output {
                    lemma_stored_is_shown(
                        record.with_snapshot(first)->Ok_0,
                        super::lifecycle::stream_snapshot(
                            Subject::SourceOutput,
                            Stage::Before,
                            captured_at_ms,
                            output,
                        ),
                    );
                }
            },
            PreparedOperationKind::ResultText { text, completeness, captured_at_ms, .. } => {
                lemma_stored_is_shown(
                    record,
                    super::lifecycle::text_snapshot(completeness, captured_at_ms, text),
                );
            },
            PreparedOperationKind::StageResult { result, captured_at_ms, .. } => {
                let snapshot = super::lifecycle::json_snapshot(
                    Subject::ToolResult,
                    Stage::After,
                    captured_at_ms,
                    result,
                );
                lemma_stored_is_shown(record, snapshot);
                lemma_same_snapshots(record.with_snapshot(snapshot)->Ok_0, left.record);
            },
            PreparedOperationKind::FinishCall { result, finished_at_ms, .. } => {
                let snapshot = super::lifecycle::json_snapshot(
                    Subject::ToolResult,
                    Stage::After,
                    finished_at_ms,
                    result,
                );
                lemma_stored_is_shown(record, snapshot);
                lemma_same_snapshots(record.with_snapshot(snapshot)->Ok_0, left.record);
            },
            PreparedOperationKind::UpdateFinalResult { .. } => {
                let place = snapshot_place(record.snapshots, Subject::ToolResult, Stage::After);
                assert(is_of(record.snapshots[place], Subject::ToolResult, Stage::After));
                assert(left.record.snapshots[place].subject == Subject::ToolResult);
                assert forall|subject: Subject, stage: Stage, digest: Seq<u8>|
                    shows(record, subject, stage, digest) && !(subject == Subject::ToolResult
                        && stage == Stage::After) implies #[trigger] shows(
                    left.record,
                    subject,
                    stage,
                    digest,
                ) by {
                    let i = choose|i: int|
                        0 <= i < record.snapshots.len() && (#[trigger] record.snapshots[i]).subject
                            == subject && record.snapshots[i].stage == stage
                            && record.snapshots[i].payload == digest;
                    assert(left.record.snapshots[i] == record.snapshots[i]);
                }
            },
            PreparedOperationKind::CaptureStreams {
                captured_at_ms,
                stdout_before,
                stderr_before,
                stdout_after,
                stderr_after,
                ..
            } => {
                let first = super::lifecycle::stream_snapshot(
                    Subject::Stdout,
                    Stage::Before,
                    captured_at_ms,
                    stdout_before,
                );
                let second = super::lifecycle::stream_snapshot(
                    Subject::Stderr,
                    Stage::Before,
                    captured_at_ms,
                    stderr_before,
                );
                let third = super::lifecycle::stream_snapshot(
                    Subject::Stdout,
                    Stage::After,
                    captured_at_ms,
                    stdout_after,
                );
                let fourth = super::lifecycle::stream_snapshot(
                    Subject::Stderr,
                    Stage::After,
                    captured_at_ms,
                    stderr_after,
                );
                lemma_stored_is_shown(record, first);
                let one = record.with_snapshot(first)->Ok_0;
                lemma_stored_is_shown(one, second);
                let two = one.with_snapshot(second)->Ok_0;
                lemma_stored_is_shown(two, third);
                let three = two.with_snapshot(third)->Ok_0;
                lemma_stored_is_shown(three, fourth);
                assert(shows(two, Subject::Stdout, Stage::Before, stdout_before.payload.sha@));
                assert(shows(three, Subject::Stdout, Stage::Before, stdout_before.payload.sha@));
                assert(shows(three, Subject::Stderr, Stage::Before, stderr_before.payload.sha@));
                assert forall|subject: Subject, stage: Stage, digest: Seq<u8>|
                    shows(record, subject, stage, digest) implies #[trigger] shows(
                    left.record,
                    subject,
                    stage,
                    digest,
                ) by {
                    assert(shows(one, subject, stage, digest));
                    assert(shows(two, subject, stage, digest));
                    assert(shows(three, subject, stage, digest));
                }
            },
            PreparedOperationKind::PruneBefore { .. } => {},
        }
    }
}

proof fn lemma_same_snapshots(left: CallModel, right: CallModel)
    requires
        left.snapshots == right.snapshots,
    ensures
        forall|subject: Subject, stage: Stage, digest: Seq<u8>|
            shows(left, subject, stage, digest) ==> #[trigger] shows(right, subject, stage, digest),
{
    assert forall|subject: Subject, stage: Stage, digest: Seq<u8>|
        shows(left, subject, stage, digest) implies #[trigger] shows(
        right,
        subject,
        stage,
        digest,
    ) by {
        let i = choose|i: int|
            0 <= i < left.snapshots.len() && (#[trigger] left.snapshots[i]).subject == subject
                && left.snapshots[i].stage == stage && left.snapshots[i].payload == digest;
        assert(right.snapshots[i] == left.snapshots[i]);
    }
}

/// The streams of a call, once captured, are in the archive: each under its own name, before and
/// after the reduction, with the digest of what was in its file.
pub proof fn lemma_captured_streams_are_archived(
    operation: ArchiveOperation,
    files: Seq<Result<Vec<u8>, String>>,
    parts: Seq<Part>,
    prepared: PreparedArchiveOperation,
    record: CallModel,
    disk: spec_fn(Seq<char>) -> Seq<u8>,
)
    requires
        operation is CaptureStreams,
        were_read(files, paths_of(operation), disk),
        are_parts_of(parts, operation, files),
        is_preparation(Ok(prepared), operation, parts),
        record.well_formed(),
    ensures
        applied(prepared.kind, record) matches Ok(left) ==> {
            &&& shows(
                left.record,
                Subject::Stdout,
                Stage::Before,
                sha256(disk(operation->CaptureStreams_stdout_before_path@)),
            )
            &&& shows(
                left.record,
                Subject::Stderr,
                Stage::Before,
                sha256(disk(operation->CaptureStreams_stderr_before_path@)),
            )
            &&& shows(
                left.record,
                Subject::Stdout,
                Stage::After,
                sha256(disk(operation->CaptureStreams_stdout_after_path@)),
            )
            &&& shows(
                left.record,
                Subject::Stderr,
                Stage::After,
                sha256(disk(operation->CaptureStreams_stderr_after_path@)),
            )
        },
{
    lemma_prepared_keeps_what_it_was_given(operation, files, parts, prepared, disk);
    lemma_record_shows_what_was_stored(prepared.kind, record);
}

/// A search looks into the raw streams of a call, and into all of them. A call without streams is
/// searched in the text that its reducer got, as complete as that was, and one without such a text
/// in the whole output. There is an error only where the call has none of these.
pub proof fn lemma_raw_streams_are_searched(record: CallModel)
    requires
        record.well_formed(),
    ensures
        ({
            let stdout = has_snapshot(record.snapshots, Subject::Stdout, Stage::Before);
            let stderr = has_snapshot(record.snapshots, Subject::Stderr, Stage::Before);
            let text = has_snapshot(record.snapshots, Subject::ResultText, Stage::Before);
            let output = has_snapshot(record.snapshots, Subject::SourceOutput, Stage::Before);
            let names = |name: SourceName|
                searchable(record) is Ok && exists|i: int|
                    0 <= i < searchable(record)->Ok_0.len() && (
                    #[trigger] searchable(record)->Ok_0[i]).name == name;
            &&& names(SourceName::Stdout) == stdout
            &&& names(SourceName::Stderr) == stderr
            &&& names(SourceName::ResultText) ==> text && !stdout && !stderr
            &&& names(SourceName::SourceOutput) == (output && !text && !stdout && !stderr)
            &&& searchable(record) is Err ==> !stdout && !stderr && (text || !output)
            &&& searchable(record) matches Ok(chosen) ==> forall|i: int|
                0 <= i < chosen.len() ==> (#[trigger] chosen[i]).name == SourceName::ResultText
                    || chosen[i].completeness == SourceCompleteness::Complete
            &&& searchable(record) matches Ok(chosen) ==> forall|i: int, j: int|
                0 <= i < chosen.len() && (#[trigger] chosen[i]).name == SourceName::ResultText && 0
                    <= j < record.snapshots.len() && is_of(
                    #[trigger] record.snapshots[j],
                    Subject::ResultText,
                    Stage::Before,
                ) ==> record.snapshots[j].completeness == Some(chosen[i].completeness)
        }),
{
    if let Ok(chosen) = searchable(record) {
        let stdout = has_snapshot(record.snapshots, Subject::Stdout, Stage::Before);
        let stderr = has_snapshot(record.snapshots, Subject::Stderr, Stage::Before);
        assert(chosen.len() > 0 && chosen[0] == chosen[0]);
        if stdout && stderr {
            assert(chosen[0].name == SourceName::Stdout && chosen[1].name == SourceName::Stderr);
        }
        assert forall|j: int|
            0 <= j < record.snapshots.len() && is_of(
                #[trigger] record.snapshots[j],
                Subject::ResultText,
                Stage::Before,
            ) implies j == snapshot_place(record.snapshots, Subject::ResultText, Stage::Before) by {
            super::calls::lemma_only_place(record.snapshots, j);
        }
    }
}

/// A call is removed only after it was finished, and only if that was before the given time. So a
/// later time removes no fewer calls.
pub proof fn lemma_only_finished_calls_are_removed(record: CallModel, timestamp_ms: i64, later: i64)
    ensures
        is_prunable(record, timestamp_ms) ==> record.status != "started"@,
        record.finished_at_ms is None ==> !is_prunable(record, timestamp_ms),
        record.finished_at_ms matches Some(at) ==> (at >= timestamp_ms ==> !is_prunable(
            record,
            timestamp_ms,
        )) && (at < timestamp_ms && record.status == "finished"@ ==> is_prunable(
            record,
            timestamp_ms,
        )),
        is_prunable(record, timestamp_ms) && timestamp_ms <= later ==> is_prunable(record, later),
{
    reveal_strlit("started");
    reveal_strlit("finished");
    assert("started"@[0] != "finished"@[0]);
}

} // verus!
