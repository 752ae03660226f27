//! What holds of every call that the operations have made.
use vstd::prelude::*;

use super::calls::{
    CallModel, SnapshotModel, Stage, Subject, has_snapshot, is_of, lemma_only_place,
    lemma_storing_twice, lemma_stored_well_formed, snapshot_place, stream_count,
};
use super::lifecycle::{applied, finalized, json_snapshot, stream_snapshot, text_snapshot};
use super::operations::{Part, PreparedOperationKind, is_prepared_from};
use super::reference::is_archive_ref;
use super::verification::{
    CallFlaw, CallRow, SnapshotFlaw, SnapshotRow, flawed_snapshots, has_row, stream_rows,
};
use crate::archive_protocol::ArchiveOperation;
use crate::text::one_of;

verus! {

/// The record shows a snapshot already, so that storing it changes nothing.
pub open spec fn shows(call: CallModel, snapshot: SnapshotModel) -> bool {
    call.with_snapshot(snapshot) == Ok::<CallModel, Seq<char>>(call)
}

/// A snapshot that is stored stays when another one is stored.
proof fn lemma_still_shown(call: CallModel, first: SnapshotModel, second: SnapshotModel)
    requires
        call.well_formed(),
        shows(call, first),
        has_snapshot(call.snapshots, first.subject, first.stage),
    ensures
        call.with_snapshot(second) matches Ok(after) ==> shows(after, first) && has_snapshot(
            after.snapshots,
            first.subject,
            first.stage,
        ),
{
    if let Ok(after) = call.with_snapshot(second) {
        lemma_stored_well_formed(call, second);
        let place = snapshot_place(call.snapshots, first.subject, first.stage);
        assert(is_of(call.snapshots[place], first.subject, first.stage));
        assert(after.snapshots[place] == call.snapshots[place]);
        lemma_only_place(after.snapshots, place);
    }
}

/// A snapshot that was stored is shown.
proof fn lemma_now_shown(call: CallModel, snapshot: SnapshotModel)
    requires
        call.well_formed(),
    ensures
        call.with_snapshot(snapshot) matches Ok(after) ==> after.well_formed() && shows(
            after,
            snapshot,
        ) && has_snapshot(after.snapshots, snapshot.subject, snapshot.stage),
{
    lemma_stored_well_formed(call, snapshot);
    lemma_storing_twice(call, snapshot);
    if let Ok(after) = call.with_snapshot(snapshot) {
        if !has_snapshot(call.snapshots, snapshot.subject, snapshot.stage) {
            lemma_only_place(after.snapshots, call.snapshots.len() as int);
        }
    }
}

/// What a record shows of other subjects does not change when a snapshot is stored.
proof fn lemma_storing(call: CallModel, snapshot: SnapshotModel, subject: Subject, stage: Stage)
    ensures
        call.with_snapshot(snapshot) matches Ok(after) ==> has_snapshot(
            after.snapshots,
            subject,
            stage,
        ) == (has_snapshot(call.snapshots, subject, stage) || is_of(snapshot, subject, stage)),
{
    if let Ok(after) = call.with_snapshot(snapshot) {
        if has_snapshot(call.snapshots, subject, stage) {
            let place = snapshot_place(call.snapshots, subject, stage);
            assert(is_of(after.snapshots[place], subject, stage));
        }
        if !has_snapshot(call.snapshots, snapshot.subject, snapshot.stage) {
            assert(after.snapshots[call.snapshots.len() as int] == snapshot);
            if has_snapshot(after.snapshots, subject, stage) {
                let place = snapshot_place(after.snapshots, subject, stage);
                assert(is_of(after.snapshots[place], subject, stage));
                if place < call.snapshots.len() {
                    assert(is_of(call.snapshots[place], subject, stage));
                }
            }
        }
    }
}

/// How many of the four streams a record shows.
spec fn shown_streams(snapshots: Seq<SnapshotModel>) -> nat {
    let one = |subject: Subject, stage: Stage| if has_snapshot(snapshots, subject, stage) {
        1nat
    } else {
        0nat
    };
    one(Subject::Stdout, Stage::Before) + one(Subject::Stdout, Stage::After) + one(
        Subject::Stderr,
        Stage::Before,
    ) + one(Subject::Stderr, Stage::After)
}

proof fn lemma_last_snapshot(snapshots: Seq<SnapshotModel>, subject: Subject, stage: Stage)
    requires
        snapshots.len() > 0,
        super::calls::are_distinct(snapshots),
    ensures
        has_snapshot(snapshots, subject, stage) == (has_snapshot(
            snapshots.drop_last(),
            subject,
            stage,
        ) || is_of(snapshots.last(), subject, stage)),
        !(has_snapshot(snapshots.drop_last(), subject, stage) && is_of(
            snapshots.last(),
            subject,
            stage,
        )),
{
    let rest = snapshots.drop_last();
    if has_snapshot(rest, subject, stage) {
        let place = snapshot_place(rest, subject, stage);
        assert(is_of(rest[place], subject, stage));
        assert(is_of(snapshots[place], subject, stage));
        assert(snapshots.last() == snapshots[snapshots.len() - 1]);
    }
    if has_snapshot(snapshots, subject, stage) {
        let place = snapshot_place(snapshots, subject, stage);
        assert(is_of(snapshots[place], subject, stage));
        if place < rest.len() {
            assert(is_of(rest[place], subject, stage));
        }
    }
    if is_of(snapshots.last(), subject, stage) {
        assert(is_of(snapshots[snapshots.len() - 1], subject, stage));
    }
}

/// In a well-formed record, a stream is counted once.
proof fn lemma_stream_count(snapshots: Seq<SnapshotModel>)
    requires
        super::calls::are_distinct(snapshots),
    ensures
        stream_count(snapshots) == shown_streams(snapshots),
    decreases snapshots.len(),
{
    if snapshots.len() > 0 {
        let rest = snapshots.drop_last();
        assert(super::calls::are_distinct(rest)) by {
            assert forall|i: int, j: int| 0 <= i < j < rest.len() implies !is_of(
                #[trigger] rest[i],
                (#[trigger] rest[j]).subject,
                rest[j].stage,
            ) by {
                assert(rest[i] == snapshots[i] && rest[j] == snapshots[j]);
            }
        }
        lemma_stream_count(rest);
        lemma_last_snapshot(snapshots, Subject::Stdout, Stage::Before);
        lemma_last_snapshot(snapshots, Subject::Stdout, Stage::After);
        lemma_last_snapshot(snapshots, Subject::Stderr, Stage::Before);
        lemma_last_snapshot(snapshots, Subject::Stderr, Stage::After);
    } else {
        assert(!has_snapshot(snapshots, Subject::Stdout, Stage::Before));
    }
}

/// A record that shows all four streams shows them after another snapshot too, and no more.
proof fn lemma_all_streams_stay(call: CallModel, snapshot: SnapshotModel)
    requires
        call.well_formed(),
    ensures
        call.with_snapshot(snapshot) matches Ok(after) ==> stream_count(after.snapshots)
            >= stream_count(call.snapshots) && stream_count(after.snapshots) <= 4,
{
    if let Ok(after) = call.with_snapshot(snapshot) {
        lemma_stored_well_formed(call, snapshot);
        lemma_stream_count(call.snapshots);
        lemma_stream_count(after.snapshots);
        lemma_storing(call, snapshot, Subject::Stdout, Stage::Before);
        lemma_storing(call, snapshot, Subject::Stdout, Stage::After);
        lemma_storing(call, snapshot, Subject::Stderr, Stage::Before);
        lemma_storing(call, snapshot, Subject::Stderr, Stage::After);
    }
}

/// A record that shows a snapshot of another kind keeps the number of its streams.
proof fn lemma_streams_unchanged(call: CallModel, snapshot: SnapshotModel)
    requires
        snapshot.subject != Subject::Stdout,
        snapshot.subject != Subject::Stderr,
    ensures
        call.with_snapshot(snapshot) matches Ok(after) ==> stream_count(after.snapshots)
            == stream_count(call.snapshots),
{
    if let Ok(after) = call.with_snapshot(snapshot) {
        if !has_snapshot(call.snapshots, snapshot.subject, snapshot.stage) {
            assert(after.snapshots.drop_last() =~= call.snapshots);
        }
    }
}

/// An operation that was applied can be applied again: it leaves the record as it is and gives the
/// same answer. So an operation whose acknowledgement was lost may be sent once more.
pub proof fn lemma_replay_is_harmless(kind: PreparedOperationKind, record: CallModel)
    requires
        record.well_formed(),
    ensures
        applied(kind, record) matches Ok(left) ==> (applied(kind, left.record) matches Ok(again)
            && again.record == left.record && again.reply == left.reply),
{
    if let Ok(left) = applied(kind, record) {
        match kind {
            PreparedOperationKind::BeginCall { call, before, after, captured_at_ms, .. } => {
                let first = json_snapshot(Subject::Input, Stage::Before, captured_at_ms, before);
                let second = json_snapshot(Subject::Input, Stage::After, captured_at_ms, after);
                lemma_now_shown(record, first);
                let middle = record.with_snapshot(first)->Ok_0;
                lemma_still_shown(middle, first, second);
                lemma_now_shown(middle, second);
            },
            PreparedOperationKind::ResultBefore { result, source_output, captured_at_ms, .. } => {
                let first = json_snapshot(
                    Subject::ToolResult,
                    Stage::Before,
                    captured_at_ms,
                    result,
                );
                lemma_now_shown(record, first);
                if let Some(output) = source_output {
                    let second = stream_snapshot(
                        Subject::SourceOutput,
                        Stage::Before,
                        captured_at_ms,
                        output,
                    );
                    let middle = record.with_snapshot(first)->Ok_0;
                    lemma_still_shown(middle, first, second);
                    lemma_now_shown(middle, second);
                }
            },
            PreparedOperationKind::ResultText { text, completeness, captured_at_ms, .. } => {
                lemma_now_shown(record, text_snapshot(completeness, captured_at_ms, text));
            },
            PreparedOperationKind::StageResult { result, captured_at_ms, .. } => {
                let snapshot = json_snapshot(
                    Subject::ToolResult,
                    Stage::After,
                    captured_at_ms,
                    result,
                );
                lemma_result_replay(record, left.record, snapshot);
            },
            PreparedOperationKind::FinishCall { result, finished_at_ms, .. } => {
                let snapshot = json_snapshot(
                    Subject::ToolResult,
                    Stage::After,
                    finished_at_ms,
                    result,
                );
                lemma_result_replay(record, left.record, snapshot);
            },
            PreparedOperationKind::UpdateFinalResult {
                result,
                is_error,
                finished_at_ms,
                ..
            } => {
                if record.status != "finished"@ {
                    let place = snapshot_place(
                        record.snapshots,
                        Subject::ToolResult,
                        Stage::After,
                    );
                    assert(is_of(record.snapshots[place], Subject::ToolResult, Stage::After));
                    assert(left.record.well_formed());
                    assert(left.record.snapshots[place].payload == result.sha@);
                    lemma_only_place(left.record.snapshots, place);
                    assert(finalized(left.record, result, is_error, finished_at_ms) is Ok);
                }
            },
            PreparedOperationKind::CaptureStreams {
                captured_at_ms,
                stdout_before,
                stderr_before,
                stdout_after,
                stderr_after,
                ..
            } => {
                let a = stream_snapshot(
                    Subject::Stdout,
                    Stage::Before,
                    captured_at_ms,
                    stdout_before,
                );
                let b = stream_snapshot(
                    Subject::Stderr,
                    Stage::Before,
                    captured_at_ms,
                    stderr_before,
                );
                let c = stream_snapshot(
                    Subject::Stdout,
                    Stage::After,
                    captured_at_ms,
                    stdout_after,
                );
                let d = stream_snapshot(
                    Subject::Stderr,
                    Stage::After,
                    captured_at_ms,
                    stderr_after,
                );
                lemma_now_shown(record, a);
                let one = record.with_snapshot(a)->Ok_0;
                lemma_still_shown(one, a, b);
                lemma_now_shown(one, b);
                let two = one.with_snapshot(b)->Ok_0;
                lemma_still_shown(two, a, c);
                lemma_still_shown(two, b, c);
                lemma_now_shown(two, c);
                let three = two.with_snapshot(c)->Ok_0;
                lemma_still_shown(three, a, d);
                lemma_still_shown(three, b, d);
                lemma_still_shown(three, c, d);
                lemma_now_shown(three, d);
            },
            PreparedOperationKind::PruneBefore { .. } => {},
        }
    }
}

/// A final result that was stored can be stored again in the record that it left.
proof fn lemma_result_replay(record: CallModel, left: CallModel, snapshot: SnapshotModel)
    requires
        record.well_formed(),
        snapshot.subject == Subject::ToolResult,
        snapshot.stage == Stage::After,
        record.with_snapshot(snapshot) matches Ok(after) && left.snapshots == after.snapshots
            && left.call == after.call,
    ensures
        left.with_snapshot(snapshot) == Ok::<CallModel, Seq<char>>(left),
        left.completion_fault(true) == record.completion_fault(true),
        left.completion_fault(false) == record.completion_fault(false),
{
    let after = record.with_snapshot(snapshot)->Ok_0;
    lemma_now_shown(record, snapshot);
    lemma_streams_unchanged(record, snapshot);
    lemma_storing(record, snapshot, Subject::ToolResult, Stage::Before);
    assert(after.call == record.call);
}

/// The snapshot has the values that a snapshot of its subject may have.
pub open spec fn is_sound_snapshot(snapshot: SnapshotModel) -> bool {
    match snapshot.subject {
        Subject::Input => snapshot.media_type == "application/json"@ && snapshot.completeness
            is None,
        Subject::ToolResult => snapshot.media_type == "application/json"@
            && snapshot.completeness is None,
        Subject::ResultText => snapshot.media_type == "text/plain; charset=utf-8"@
            && snapshot.completeness is Some && snapshot.stage == Stage::Before,
        _ => is_stream_type(snapshot.media_type) && snapshot.completeness is None,
    }
}

/// The media type is one that output may have.
pub open spec fn is_stream_type(media_type: Seq<char>) -> bool {
    media_type == "text/plain; charset=utf-8"@ || media_type == "application/octet-stream"@
}

/// The output that an operation stores has the media types that output may have.
pub open spec fn is_typed(kind: PreparedOperationKind) -> bool {
    match kind {
        PreparedOperationKind::ResultBefore { source_output: Some(output), .. } => is_stream_type(
            output.media_type@,
        ),
        PreparedOperationKind::CaptureStreams {
            stdout_before,
            stderr_before,
            stdout_after,
            stderr_after,
            ..
        } => is_stream_type(stdout_before.media_type@) && is_stream_type(stderr_before.media_type@)
            && is_stream_type(stdout_after.media_type@) && is_stream_type(stderr_after.media_type@),
        _ => true,
    }
}

/// An operation that was prepared has the media types that output may have.
pub proof fn lemma_prepared_is_typed(
    kind: PreparedOperationKind,
    operation: ArchiveOperation,
    parts: Seq<Part>,
)
    requires
        is_prepared_from(kind, operation, parts),
    ensures
        is_typed(kind),
{
}

/// What holds of a stored call: its reference and values are valid, its status agrees with how it
/// ended, and a call that is finished has its results, and its streams where it needs them.
pub open spec fn is_sound(record: CallModel) -> bool {
    &&& record.well_formed()
    &&& is_archive_ref(record.archive_ref)
    &&& forall|i: int|
        0 <= i < record.snapshots.len() ==> is_sound_snapshot(#[trigger] record.snapshots[i])
    &&& (record.status == "started"@ || record.status == "finished"@)
    &&& record.status == "started"@ ==> record.finished_at_ms is None && (record.is_error is None
        <==> record.executed is None) && record.executed != Some(false)
    &&& record.status == "finished"@ ==> record.finished_at_ms is Some && record.is_error is Some
        && record.executed is Some && has_snapshot(
        record.snapshots,
        Subject::ToolResult,
        Stage::After,
    )
    &&& record.status == "finished"@ && record.executed == Some(true) ==> has_snapshot(
        record.snapshots,
        Subject::ToolResult,
        Stage::Before,
    ) && (record.call.requires_streams ==> stream_count(record.snapshots) == 4)
}

/// The record shows what the call was given.
pub open spec fn has_inputs(record: CallModel) -> bool {
    has_snapshot(record.snapshots, Subject::Input, Stage::Before) && has_snapshot(
        record.snapshots,
        Subject::Input,
        Stage::After,
    )
}

/// A record that has just begun is sound.
pub proof fn lemma_started_is_sound(record: CallModel)
    requires
        record.status == "started"@,
        record.finished_at_ms is None,
        record.is_error is None,
        record.executed is None,
        record.snapshots.len() == 0,
        is_archive_ref(record.archive_ref),
    ensures
        is_sound(record),
{
    lemma_statuses_differ();
}

proof fn lemma_statuses_differ()
    ensures
        "started"@ != "finished"@,
{
    reveal_strlit("started");
    reveal_strlit("finished");
    assert("started"@[0] != "finished"@[0]);
}

/// Storing a sound snapshot keeps a record sound.
proof fn lemma_stored_sound(record: CallModel, snapshot: SnapshotModel)
    requires
        is_sound(record),
        is_sound_snapshot(snapshot),
    ensures
        record.with_snapshot(snapshot) matches Ok(after) ==> is_sound(after) && (has_inputs(record)
            ==> has_inputs(after)) && has_snapshot(
            after.snapshots,
            snapshot.subject,
            snapshot.stage,
        ) && after == (CallModel { snapshots: after.snapshots, ..record }),
{
    if let Ok(after) = record.with_snapshot(snapshot) {
        lemma_now_shown(record, snapshot);
        lemma_all_streams_stay(record, snapshot);
        lemma_storing(record, snapshot, Subject::ToolResult, Stage::After);
        lemma_storing(record, snapshot, Subject::ToolResult, Stage::Before);
        lemma_storing(record, snapshot, Subject::Input, Stage::Before);
        lemma_storing(record, snapshot, Subject::Input, Stage::After);
    }
}

/// Every operation keeps the records of calls sound, and loses none of what a call was given. A
/// call that has begun has its inputs.
pub proof fn lemma_operations_keep_calls_sound(kind: PreparedOperationKind, record: CallModel)
    requires
        is_sound(record),
        is_typed(kind),
    ensures
        applied(kind, record) matches Ok(left) ==> is_sound(left.record) && (has_inputs(record)
            || kind is BeginCall ==> has_inputs(left.record)),
{
    if let Ok(left) = applied(kind, record) {
        lemma_statuses_differ();
        match kind {
            PreparedOperationKind::BeginCall { before, after, captured_at_ms, .. } => {
                let first = json_snapshot(Subject::Input, Stage::Before, captured_at_ms, before);
                let second = json_snapshot(Subject::Input, Stage::After, captured_at_ms, after);
                lemma_stored_sound(record, first);
                let middle = record.with_snapshot(first)->Ok_0;
                lemma_stored_sound(middle, second);
                lemma_storing(middle, second, Subject::Input, Stage::Before);
            },
            PreparedOperationKind::ResultBefore { result, source_output, captured_at_ms, .. } => {
                let first = json_snapshot(
                    Subject::ToolResult,
                    Stage::Before,
                    captured_at_ms,
                    result,
                );
                lemma_stored_sound(record, first);
                if let Some(output) = source_output {
                    let middle = record.with_snapshot(first)->Ok_0;
                    lemma_stored_sound(
                        middle,
                        stream_snapshot(
                            Subject::SourceOutput,
                            Stage::Before,
                            captured_at_ms,
                            output,
                        ),
                    );
                }
            },
            PreparedOperationKind::ResultText { text, completeness, captured_at_ms, .. } => {
                lemma_stored_sound(record, text_snapshot(completeness, captured_at_ms, text));
            },
            PreparedOperationKind::StageResult { result, captured_at_ms, .. } => {
                lemma_stored_sound(
                    record,
                    json_snapshot(Subject::ToolResult, Stage::After, captured_at_ms, result),
                );
            },
            PreparedOperationKind::FinishCall {
                result,
                require_pre_result,
                finished_at_ms,
                ..
            } => {
                let snapshot = json_snapshot(
                    Subject::ToolResult,
                    Stage::After,
                    finished_at_ms,
                    result,
                );
                lemma_stored_sound(record, snapshot);
                lemma_streams_unchanged(record, snapshot);
                lemma_storing(record, snapshot, Subject::ToolResult, Stage::Before);
            },
            PreparedOperationKind::UpdateFinalResult { result, finished_at_ms, .. } => {
                if record.status != "finished"@ {
                    lemma_replaced_sound(
                        record,
                        json_snapshot(Subject::ToolResult, Stage::After, finished_at_ms, result),
                    );
                }
            },
            PreparedOperationKind::CaptureStreams {
                captured_at_ms,
                stdout_before,
                stderr_before,
                stdout_after,
                stderr_after,
                ..
            } => {
                let a = stream_snapshot(
                    Subject::Stdout,
                    Stage::Before,
                    captured_at_ms,
                    stdout_before,
                );
                let b = stream_snapshot(
                    Subject::Stderr,
                    Stage::Before,
                    captured_at_ms,
                    stderr_before,
                );
                let c = stream_snapshot(
                    Subject::Stdout,
                    Stage::After,
                    captured_at_ms,
                    stdout_after,
                );
                let d = stream_snapshot(
                    Subject::Stderr,
                    Stage::After,
                    captured_at_ms,
                    stderr_after,
                );
                lemma_stored_sound(record, a);
                let one = record.with_snapshot(a)->Ok_0;
                lemma_stored_sound(one, b);
                let two = one.with_snapshot(b)->Ok_0;
                lemma_stored_sound(two, c);
                let three = two.with_snapshot(c)->Ok_0;
                lemma_stored_sound(three, d);
            },
            PreparedOperationKind::PruneBefore { .. } => {},
        }
    }
}

/// What a record shows does not change when a snapshot takes the place of another one.
proof fn lemma_replaced_sound(record: CallModel, snapshot: SnapshotModel)
    requires
        is_sound(record),
        snapshot.subject == Subject::ToolResult,
        snapshot.stage == Stage::After,
        snapshot.media_type == "application/json"@,
        has_snapshot(record.snapshots, snapshot.subject, snapshot.stage),
    ensures
        ({
            let after = record.with_replaced(snapshot);
            &&& after.well_formed()
            &&& after == (CallModel { snapshots: after.snapshots, ..record })
            &&& forall|i: int|
                0 <= i < after.snapshots.len() ==> is_sound_snapshot(#[trigger] after.snapshots[i])
            &&& forall|subject: Subject, stage: Stage| #[trigger]
                has_snapshot(after.snapshots, subject, stage) == has_snapshot(
                    record.snapshots,
                    subject,
                    stage,
                )
            &&& stream_count(after.snapshots) == stream_count(record.snapshots)
        }),
{
    let after = record.with_replaced(snapshot);
    let place = snapshot_place(record.snapshots, snapshot.subject, snapshot.stage);
    assert(is_of(record.snapshots[place], snapshot.subject, snapshot.stage));
    assert(is_sound_snapshot(record.snapshots[place]));
    assert forall|subject: Subject, stage: Stage| #[trigger]
        has_snapshot(after.snapshots, subject, stage) == has_snapshot(
            record.snapshots,
            subject,
            stage,
        ) by {
        if has_snapshot(after.snapshots, subject, stage) {
            let at = snapshot_place(after.snapshots, subject, stage);
            assert(is_of(after.snapshots[at], subject, stage));
            assert(is_of(record.snapshots[at], subject, stage));
        }
        if has_snapshot(record.snapshots, subject, stage) {
            let at = snapshot_place(record.snapshots, subject, stage);
            assert(is_of(record.snapshots[at], subject, stage));
            assert(is_of(after.snapshots[at], subject, stage));
        }
    }
    lemma_stream_count(record.snapshots);
    lemma_stream_count(after.snapshots);
}

/// The row stores a snapshot.
pub open spec fn stores_snapshot(row: SnapshotRow, snapshot: SnapshotModel) -> bool {
    &&& row.subject@ == snapshot.subject.text()
    &&& row.stage@ == snapshot.stage.text()
    &&& row.media_type@ == snapshot.media_type
    &&& match (row.completeness, snapshot.completeness) {
        (Some(name), Some(completeness)) => name@ == completeness.text(),
        (None, None) => true,
        _ => false,
    }
}

/// A flag as it stands in a table.
pub open spec fn flag(value: bool) -> i64 {
    if value {
        1
    } else {
        0
    }
}

/// An optional flag as it stands in a table.
pub open spec fn optional_flag(value: Option<bool>) -> Option<i64> {
    match value {
        Some(set) => Some(flag(set)),
        None => None,
    }
}

/// The row stores a call.
pub open spec fn stores_call(row: CallRow, record: CallModel) -> bool {
    &&& row.archive_ref@ == record.archive_ref
    &&& row.status@ == record.status
    &&& row.requires_streams == flag(record.call.requires_streams)
    &&& row.finished_at_ms == record.finished_at_ms
    &&& row.is_error == optional_flag(record.is_error)
    &&& row.executed == optional_flag(record.executed)
    &&& row.snapshots@.len() == record.snapshots.len()
    &&& forall|i: int|
        0 <= i < record.snapshots.len() ==> stores_snapshot(
            #[trigger] row.snapshots@[i],
            record.snapshots[i],
        )
}

proof fn lemma_names()
    ensures
        forall|left: Subject, right: Subject| #[trigger]
            left.text() == #[trigger] right.text() ==> left == right,
        forall|left: Stage, right: Stage| #[trigger]
            left.text() == #[trigger] right.text() ==> left == right,
{
    reveal_strlit("input");
    reveal_strlit("result");
    reveal_strlit("result_text");
    reveal_strlit("source_output");
    reveal_strlit("stdout");
    reveal_strlit("stderr");
    reveal_strlit("before");
    reveal_strlit("after");
    assert("input"@.len() == 5 && "result"@.len() == 6 && "result_text"@.len() == 11
        && "source_output"@.len() == 13 && "stdout"@.len() == 6 && "stderr"@.len() == 6);
    assert("stdout"@[3] != "stderr"@[3]);
    assert("stdout"@[0] != "result"@[0]);
    assert("stderr"@[0] != "result"@[0]);
    assert("before"@.len() == 6 && "after"@.len() == 5);
    assert forall|left: Subject, right: Subject| #[trigger]
        left.text() == #[trigger] right.text() implies left == right by {
        assert(left.text().len() == right.text().len());
        assert(left.text()[0] == right.text()[0]);
        assert(left.text()[3] == right.text()[3]);
    }
    assert forall|left: Stage, right: Stage| #[trigger]
        left.text() == #[trigger] right.text() implies left == right by {
        assert(left.text().len() == right.text().len());
    }
}

/// A row that stores a snapshot shows it.
proof fn lemma_row_shown(row: CallRow, record: CallModel, subject: Subject, stage: Stage)
    requires
        stores_call(row, record),
        has_snapshot(record.snapshots, subject, stage),
    ensures
        has_row(row.snapshots@, subject.text(), stage.text()),
{
    let place = snapshot_place(record.snapshots, subject, stage);
    assert(is_of(record.snapshots[place], subject, stage));
    assert(stores_snapshot(row.snapshots@[place], record.snapshots[place]));
}

proof fn lemma_is_one_of(text: Seq<char>, choices: Seq<&str>, place: int)
    requires
        0 <= place < choices.len(),
        choices[place]@ == text,
    ensures
        one_of(text, choices),
{
}

/// A row that stores a sound snapshot has no flaw.
proof fn lemma_sound_row(row: SnapshotRow, snapshot: SnapshotModel, flaw: SnapshotFlaw)
    requires
        stores_snapshot(row, snapshot),
        is_sound_snapshot(snapshot),
    ensures
        !row.is_flawed(flaw),
{
    lemma_names();
    let subjects = seq!["input", "result", "result_text", "source_output", "stdout", "stderr"];
    let stages = seq!["before", "after"];
    let types = seq!["text/plain; charset=utf-8", "application/octet-stream"];
    let grades = seq!["complete", "incomplete", "unknown"];
    match snapshot.subject {
        Subject::Input => lemma_is_one_of(row.subject@, subjects, 0),
        Subject::ToolResult => lemma_is_one_of(row.subject@, subjects, 1),
        Subject::ResultText => lemma_is_one_of(row.subject@, subjects, 2),
        Subject::SourceOutput => lemma_is_one_of(row.subject@, subjects, 3),
        Subject::Stdout => lemma_is_one_of(row.subject@, subjects, 4),
        Subject::Stderr => lemma_is_one_of(row.subject@, subjects, 5),
    }
    match snapshot.stage {
        Stage::Before => lemma_is_one_of(row.stage@, stages, 0),
        Stage::After => lemma_is_one_of(row.stage@, stages, 1),
    }
    if row.media_type@ == "text/plain; charset=utf-8"@ {
        lemma_is_one_of(row.media_type@, types, 0);
    }
    if row.media_type@ == "application/octet-stream"@ {
        lemma_is_one_of(row.media_type@, types, 1);
    }
    if let (Some(name), Some(completeness)) = (row.completeness, snapshot.completeness) {
        match completeness {
            super::model::SourceCompleteness::Complete => lemma_is_one_of(name@, grades, 0),
            super::model::SourceCompleteness::Incomplete => lemma_is_one_of(name@, grades, 1),
            super::model::SourceCompleteness::Unknown => lemma_is_one_of(name@, grades, 2),
        }
    }
    assert(Subject::ResultText.text() == "result_text"@);
    assert(Subject::Input.text() == "input"@);
    assert(Subject::ToolResult.text() == "result"@);
    assert(Subject::SourceOutput.text() == "source_output"@);
    assert(Subject::Stdout.text() == "stdout"@);
    assert(Subject::Stderr.text() == "stderr"@);
    assert(Stage::Before.text() == "before"@);
    if flaw == SnapshotFlaw::MediaType {
        if one_of(row.subject@, seq!["input", "result"]) {
            let choices = seq!["input", "result"];
            let i = choose|i: int|
                0 <= i < choices.len() && #[trigger] choices[i]@ == row.subject@;
            assert(i == 0 || i == 1);
        }
        if row.is_output() {
            let choices = seq!["source_output", "stdout", "stderr"];
            let i = choose|i: int|
                0 <= i < choices.len() && #[trigger] choices[i]@ == row.subject@;
            assert(i == 0 || i == 1 || i == 2);
        }
    }
}

proof fn lemma_no_flawed_rows(
    rows: Seq<SnapshotRow>,
    snapshots: Seq<SnapshotModel>,
    flaw: SnapshotFlaw,
)
    requires
        rows.len() == snapshots.len(),
        forall|i: int|
            0 <= i < snapshots.len() ==> stores_snapshot(#[trigger] rows[i], snapshots[i]),
        forall|i: int| 0 <= i < snapshots.len() ==> is_sound_snapshot(#[trigger] snapshots[i]),
    ensures
        flawed_snapshots(rows, flaw) == 0,
    decreases rows.len(),
{
    if rows.len() > 0 {
        let fewer = rows.drop_last();
        let rest = snapshots.drop_last();
        assert forall|i: int| 0 <= i < rest.len() implies stores_snapshot(
            #[trigger] fewer[i],
            rest[i],
        ) by {
            assert(fewer[i] == rows[i]);
            assert(rest[i] == snapshots[i]);
        }
        lemma_no_flawed_rows(fewer, rest, flaw);
        assert(stores_snapshot(rows[rows.len() - 1], snapshots[rows.len() - 1]));
        lemma_sound_row(rows.last(), snapshots.last(), flaw);
    }
}

proof fn lemma_stream_rows(rows: Seq<SnapshotRow>, snapshots: Seq<SnapshotModel>)
    requires
        rows.len() == snapshots.len(),
        forall|i: int|
            0 <= i < snapshots.len() ==> stores_snapshot(#[trigger] rows[i], snapshots[i]),
    ensures
        stream_rows(rows) == stream_count(snapshots),
    decreases rows.len(),
{
    if rows.len() > 0 {
        let fewer = rows.drop_last();
        assert forall|i: int| 0 <= i < fewer.len() implies stores_snapshot(
            #[trigger] fewer[i],
            snapshots.drop_last()[i],
        ) by {
            assert(fewer[i] == rows[i]);
        }
        lemma_stream_rows(fewer, snapshots.drop_last());
        let row = rows.last();
        let snapshot = snapshots.last();
        assert(stores_snapshot(rows[rows.len() - 1], snapshots[rows.len() - 1]));
        lemma_names();
        let stages = seq!["before", "after"];
        match snapshot.stage {
            Stage::Before => lemma_is_one_of(row.stage@, stages, 0),
            Stage::After => lemma_is_one_of(row.stage@, stages, 1),
        }
        let streams = seq!["stdout", "stderr"];
        assert(Subject::Stdout.text() == "stdout"@);
        assert(Subject::Stderr.text() == "stderr"@);
        if snapshot.subject == Subject::Stdout {
            lemma_is_one_of(row.subject@, streams, 0);
        } else if snapshot.subject == Subject::Stderr {
            lemma_is_one_of(row.subject@, streams, 1);
        } else if one_of(row.subject@, streams) {
            let i = choose|i: int| 0 <= i < streams.len() && #[trigger] streams[i]@ == row.subject@;
            assert(i == 0 || i == 1);
        }
    }
}

/// The check of an archive finds nothing wrong with a sound call that has its inputs: neither with
/// the call nor with a snapshot of it.
pub proof fn lemma_sound_calls_pass_the_check(
    row: CallRow,
    record: CallModel,
    flaw: CallFlaw,
    snapshot_flaw: SnapshotFlaw,
)
    requires
        is_sound(record),
        has_inputs(record),
        stores_call(row, record),
    ensures
        !row.is_flawed(flaw),
        flawed_snapshots(row.snapshots@, snapshot_flaw) == 0,
{
    lemma_statuses_differ();
    let statuses = seq!["started", "finished"];
    if record.status == "started"@ {
        lemma_is_one_of(row.status@, statuses, 0);
    } else {
        lemma_is_one_of(row.status@, statuses, 1);
    }
    lemma_row_shown(row, record, Subject::Input, Stage::Before);
    lemma_row_shown(row, record, Subject::Input, Stage::After);
    if record.status == "finished"@ {
        lemma_row_shown(row, record, Subject::ToolResult, Stage::After);
        if record.executed == Some(true) {
            lemma_row_shown(row, record, Subject::ToolResult, Stage::Before);
        }
    }
    lemma_stream_rows(row.snapshots@, record.snapshots);
    lemma_no_flawed_rows(row.snapshots@, record.snapshots, snapshot_flaw);
    assert(Subject::Input.text() == "input"@);
    assert(Subject::ToolResult.text() == "result"@);
    assert(Stage::Before.text() == "before"@);
    assert(Stage::After.text() == "after"@);
}

} // verus!
