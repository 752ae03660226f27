//! Which archives the check finds nothing wrong with.
use vstd::prelude::*;

use super::reference::is_archive_ref;
use super::schema::{RowCounts, backup_space, migration_fault};
use super::verification::{
    ArchiveContents, CallFlaw, CallRow, PayloadRow, SnapshotFlaw, SnapshotRow, flawed_calls,
    flawed_in_calls, flawed_payloads, flawed_snapshots, has_row, started_calls, stream_rows,
    unreferenced_payloads,
};
use crate::text::one_of;

verus! {

proof fn lemma_one_of_two(text: Seq<char>, first: &str, second: &str)
    ensures
        one_of(text, seq![first, second]) <==> text == first@ || text == second@,
{
    let list = seq![first, second];
    assert(list[0] == first && list[1] == second);
}

proof fn lemma_one_of_three(text: Seq<char>, first: &str, second: &str, third: &str)
    ensures
        one_of(text, seq![first, second, third]) <==> text == first@ || text == second@ || text
            == third@,
{
    let list = seq![first, second, third];
    assert(list[0] == first && list[1] == second && list[2] == third);
}

/// A snapshot shows one of six subjects, before or after the output was reduced, with the media
/// type of its subject. Only the text of a result, which is taken before, tells how complete it is.
pub open spec fn is_sound_snapshot(row: SnapshotRow) -> bool {
    &&& row.stage@ == "before"@ || row.stage@ == "after"@
    &&& row.subject@ == "input"@ || row.subject@ == "result"@ || row.subject@ == "result_text"@
        || row.subject@ == "source_output"@ || row.subject@ == "stdout"@ || row.subject@
        == "stderr"@
    &&& row.subject@ == "input"@ || row.subject@ == "result"@ ==> row.media_type@
        == "application/json"@
    &&& row.subject@ == "result_text"@ ==> row.media_type@ == "text/plain; charset=utf-8"@
    &&& row.subject@ == "source_output"@ || row.subject@ == "stdout"@ || row.subject@ == "stderr"@
        ==> row.media_type@ == "text/plain; charset=utf-8"@ || row.media_type@
        == "application/octet-stream"@
    &&& row.subject@ != "result_text"@ ==> row.completeness is None
    &&& row.subject@ == "result_text"@ ==> row.stage@ == "before"@
    &&& row.subject@ == "result_text"@ && row.completeness is Some
        ==> row.completeness->Some_0@ == "complete"@ || row.completeness->Some_0@ == "incomplete"@
        || row.completeness->Some_0@ == "unknown"@
}

/// A stored flag.
pub open spec fn is_flag(value: i64) -> bool {
    value == 0 || value == 1
}

/// A call has its inputs. One that is finished has an end, an outcome and a final result; one that
/// ran has its own result too, and four snapshots of its streams where these are asked for. One
/// that is not finished has no end, and has an outcome only after it ran.
pub open spec fn is_sound_call(row: CallRow) -> bool {
    &&& row.status@ == "started"@ || row.status@ == "finished"@
    &&& is_archive_ref(row.archive_ref@)
    &&& is_flag(row.requires_streams)
    &&& row.is_error is Some ==> is_flag(row.is_error->Some_0)
    &&& row.executed is Some ==> is_flag(row.executed->Some_0)
    &&& row.status@ == "started"@ ==> row.finished_at_ms is None && (row.is_error is Some
        <==> row.executed is Some) && row.executed != Some(0i64)
    &&& row.status@ == "finished"@ ==> row.finished_at_ms is Some && row.is_error is Some
        && row.executed is Some
    &&& has_row(row.snapshots@, "input"@, "before"@)
    &&& has_row(row.snapshots@, "input"@, "after"@)
    &&& row.status@ == "finished"@ ==> has_row(row.snapshots@, "result"@, "after"@)
    &&& row.status@ == "finished"@ && row.executed == Some(1i64) ==> has_row(
        row.snapshots@,
        "result"@,
        "before"@,
    )
    &&& row.status@ == "finished"@ && row.executed == Some(1i64) && row.requires_streams == 1
        ==> stream_rows(row.snapshots@) == 4
}

/// A payload has a whole digest, a known compression and a length.
pub open spec fn is_sound_payload(row: PayloadRow) -> bool {
    &&& row.digest_length == 32
    &&& row.compression@ == "none"@ || row.compression@ == "zstd"@
    &&& row.uncompressed_length >= 0
}

proof fn lemma_snapshot_flaws(row: SnapshotRow)
    ensures
        is_sound_snapshot(row) <==> {
            &&& !row.is_flawed(SnapshotFlaw::Subject)
            &&& !row.is_flawed(SnapshotFlaw::Completeness)
            &&& !row.is_flawed(SnapshotFlaw::Stage)
            &&& !row.is_flawed(SnapshotFlaw::MediaType)
        },
{
    lemma_one_of_two(row.stage@, "before", "after");
    lemma_one_of_two(row.subject@, "input", "result");
    lemma_one_of_three(row.subject@, "source_output", "stdout", "stderr");
    lemma_one_of_two(row.media_type@, "text/plain; charset=utf-8", "application/octet-stream");
    if let Some(name) = row.completeness {
        lemma_one_of_three(name@, "complete", "incomplete", "unknown");
    }
    let subjects = seq!["input", "result", "result_text", "source_output", "stdout", "stderr"];
    assert(subjects[0] == "input" && subjects[1] == "result" && subjects[2] == "result_text"
        && subjects[3] == "source_output" && subjects[4] == "stdout" && subjects[5] == "stderr");
    if one_of(row.subject@, subjects) {
        let i = choose|i: int| 0 <= i < subjects.len() && #[trigger] subjects[i]@ == row.subject@;
        assert(i == 0 || i == 1 || i == 2 || i == 3 || i == 4 || i == 5);
    }
}

proof fn lemma_call_flaws(row: CallRow)
    ensures
        is_sound_call(row) <==> {
            &&& !row.is_flawed(CallFlaw::Status)
            &&& !row.is_flawed(CallFlaw::RequiresStreams)
            &&& !row.is_flawed(CallFlaw::IsError)
            &&& !row.is_flawed(CallFlaw::Executed)
            &&& !row.is_flawed(CallFlaw::Lifecycle)
            &&& !row.is_flawed(CallFlaw::Reference)
            &&& !row.is_flawed(CallFlaw::MissingInput)
            &&& !row.is_flawed(CallFlaw::MissingFinalResult)
            &&& !row.is_flawed(CallFlaw::MissingFirstResult)
            &&& !row.is_flawed(CallFlaw::MissingStreams)
        },
{
    lemma_one_of_two(row.status@, "started", "finished");
}

proof fn lemma_no_flawed_snapshot(rows: Seq<SnapshotRow>, flaw: SnapshotFlaw)
    ensures
        flawed_snapshots(rows, flaw) == 0 <==> forall|i: int|
            0 <= i < rows.len() ==> !(#[trigger] rows[i]).is_flawed(flaw),
    decreases rows.len(),
{
    if rows.len() > 0 {
        let front = rows.drop_last();
        lemma_no_flawed_snapshot(front, flaw);
        if flawed_snapshots(rows, flaw) == 0 {
            assert forall|i: int| 0 <= i < rows.len() implies !(#[trigger] rows[i]).is_flawed(
                flaw,
            ) by {
                if i < rows.len() - 1 {
                    assert(front[i] == rows[i]);
                }
            }
        } else if forall|i: int| 0 <= i < rows.len() ==> !(#[trigger] rows[i]).is_flawed(flaw) {
            assert forall|i: int| 0 <= i < front.len() implies !(#[trigger] front[i]).is_flawed(
                flaw,
            ) by {
                assert(front[i] == rows[i]);
            }
            assert(rows[rows.len() - 1] == rows.last());
        }
    }
}

proof fn lemma_no_flawed_call(rows: Seq<CallRow>, flaw: CallFlaw)
    ensures
        flawed_calls(rows, flaw) == 0 <==> forall|i: int|
            0 <= i < rows.len() ==> !(#[trigger] rows[i]).is_flawed(flaw),
    decreases rows.len(),
{
    if rows.len() > 0 {
        let front = rows.drop_last();
        lemma_no_flawed_call(front, flaw);
        if flawed_calls(rows, flaw) == 0 {
            assert forall|i: int| 0 <= i < rows.len() implies !(#[trigger] rows[i]).is_flawed(
                flaw,
            ) by {
                if i < rows.len() - 1 {
                    assert(front[i] == rows[i]);
                }
            }
        } else if forall|i: int| 0 <= i < rows.len() ==> !(#[trigger] rows[i]).is_flawed(flaw) {
            assert forall|i: int| 0 <= i < front.len() implies !(#[trigger] front[i]).is_flawed(
                flaw,
            ) by {
                assert(front[i] == rows[i]);
            }
            assert(rows[rows.len() - 1] == rows.last());
        }
    }
}

proof fn lemma_no_flaw_in_calls(rows: Seq<CallRow>, flaw: SnapshotFlaw)
    ensures
        flawed_in_calls(rows, flaw) == 0 <==> forall|i: int|
            0 <= i < rows.len() ==> flawed_snapshots((#[trigger] rows[i]).snapshots@, flaw) == 0,
    decreases rows.len(),
{
    if rows.len() > 0 {
        let front = rows.drop_last();
        lemma_no_flaw_in_calls(front, flaw);
        if flawed_in_calls(rows, flaw) == 0 {
            assert forall|i: int| 0 <= i < rows.len() implies flawed_snapshots(
                (#[trigger] rows[i]).snapshots@,
                flaw,
            ) == 0 by {
                if i < rows.len() - 1 {
                    assert(front[i] == rows[i]);
                }
            }
        } else if forall|i: int|
            0 <= i < rows.len() ==> flawed_snapshots((#[trigger] rows[i]).snapshots@, flaw) == 0 {
            assert forall|i: int| 0 <= i < front.len() implies flawed_snapshots(
                (#[trigger] front[i]).snapshots@,
                flaw,
            ) == 0 by {
                assert(front[i] == rows[i]);
            }
            assert(rows[rows.len() - 1] == rows.last());
        }
    }
}

/// The check tells nothing of the payloads exactly where each has sound values and is shown by
/// some snapshot.
pub proof fn lemma_sound_payloads(rows: Seq<PayloadRow>)
    ensures
        flawed_payloads(rows) == 0 <==> forall|i: int|
            0 <= i < rows.len() ==> is_sound_payload(#[trigger] rows[i]),
        unreferenced_payloads(rows) == 0 <==> forall|i: int|
            0 <= i < rows.len() ==> (#[trigger] rows[i]).is_referenced,
    decreases rows.len(),
{
    if rows.len() > 0 {
        let front = rows.drop_last();
        let last = rows.last();
        lemma_sound_payloads(front);
        lemma_one_of_two(last.compression@, "none", "zstd");
        assert(rows[rows.len() - 1] == last);
        assert forall|i: int| 0 <= i < front.len() implies #[trigger] front[i] == rows[i] by {}
        if flawed_payloads(rows) == 0 {
            assert forall|i: int| 0 <= i < rows.len() implies is_sound_payload(
                #[trigger] rows[i],
            ) by {
                if i < rows.len() - 1 {
                    assert(is_sound_payload(front[i]));
                }
            }
        }
        if unreferenced_payloads(rows) == 0 {
            assert forall|i: int| 0 <= i < rows.len() implies (#[trigger] rows[i]).is_referenced by {
                if i < rows.len() - 1 {
                    assert(front[i].is_referenced);
                }
            }
        }
        if forall|i: int| 0 <= i < rows.len() ==> is_sound_payload(#[trigger] rows[i]) {
            assert forall|i: int| 0 <= i < front.len() implies is_sound_payload(
                #[trigger] front[i],
            ) by {
                assert(is_sound_payload(rows[i]));
            }
        }
        if forall|i: int| 0 <= i < rows.len() ==> (#[trigger] rows[i]).is_referenced {
            assert forall|i: int| 0 <= i < front.len() implies (#[trigger] front[i]).is_referenced by {
                assert(rows[i].is_referenced);
            }
        }
    }
}

/// The snapshots of an archive have none of the four flaws.
pub open spec fn has_no_flaws(rows: Seq<SnapshotRow>) -> bool {
    &&& flawed_snapshots(rows, SnapshotFlaw::Subject) == 0
    &&& flawed_snapshots(rows, SnapshotFlaw::Completeness) == 0
    &&& flawed_snapshots(rows, SnapshotFlaw::Stage) == 0
    &&& flawed_snapshots(rows, SnapshotFlaw::MediaType) == 0
}

/// The check tells nothing of some snapshots exactly where each is sound.
pub proof fn lemma_sound_snapshots(rows: Seq<SnapshotRow>)
    ensures
        has_no_flaws(rows) <==> forall|i: int|
            0 <= i < rows.len() ==> is_sound_snapshot(#[trigger] rows[i]),
{
    lemma_no_flawed_snapshot(rows, SnapshotFlaw::Subject);
    lemma_no_flawed_snapshot(rows, SnapshotFlaw::Completeness);
    lemma_no_flawed_snapshot(rows, SnapshotFlaw::Stage);
    lemma_no_flawed_snapshot(rows, SnapshotFlaw::MediaType);
    if has_no_flaws(rows) {
        assert forall|i: int| 0 <= i < rows.len() implies is_sound_snapshot(#[trigger] rows[i]) by {
            lemma_snapshot_flaws(rows[i]);
        }
    }
    if forall|i: int| 0 <= i < rows.len() ==> is_sound_snapshot(#[trigger] rows[i]) {
        assert forall|i: int| 0 <= i < rows.len() implies !(#[trigger] rows[i]).is_flawed(
            SnapshotFlaw::Subject,
        ) && !rows[i].is_flawed(SnapshotFlaw::Completeness) && !rows[i].is_flawed(
            SnapshotFlaw::Stage,
        ) && !rows[i].is_flawed(SnapshotFlaw::MediaType) by {
            lemma_snapshot_flaws(rows[i]);
        }
    }
}

/// Some calls have none of the ten flaws.
pub open spec fn have_no_flaws(rows: Seq<CallRow>) -> bool {
    &&& flawed_calls(rows, CallFlaw::Status) == 0
    &&& flawed_calls(rows, CallFlaw::RequiresStreams) == 0
    &&& flawed_calls(rows, CallFlaw::IsError) == 0
    &&& flawed_calls(rows, CallFlaw::Executed) == 0
    &&& flawed_calls(rows, CallFlaw::Lifecycle) == 0
    &&& flawed_calls(rows, CallFlaw::Reference) == 0
    &&& flawed_calls(rows, CallFlaw::MissingInput) == 0
    &&& flawed_calls(rows, CallFlaw::MissingFinalResult) == 0
    &&& flawed_calls(rows, CallFlaw::MissingFirstResult) == 0
    &&& flawed_calls(rows, CallFlaw::MissingStreams) == 0
}

/// The check tells nothing of some calls exactly where each is sound.
pub proof fn lemma_sound_calls(rows: Seq<CallRow>)
    ensures
        have_no_flaws(rows) <==> forall|i: int|
            0 <= i < rows.len() ==> is_sound_call(#[trigger] rows[i]),
{
    lemma_no_flawed_call(rows, CallFlaw::Status);
    lemma_no_flawed_call(rows, CallFlaw::RequiresStreams);
    lemma_no_flawed_call(rows, CallFlaw::IsError);
    lemma_no_flawed_call(rows, CallFlaw::Executed);
    lemma_no_flawed_call(rows, CallFlaw::Lifecycle);
    lemma_no_flawed_call(rows, CallFlaw::Reference);
    lemma_no_flawed_call(rows, CallFlaw::MissingInput);
    lemma_no_flawed_call(rows, CallFlaw::MissingFinalResult);
    lemma_no_flawed_call(rows, CallFlaw::MissingFirstResult);
    lemma_no_flawed_call(rows, CallFlaw::MissingStreams);
    if have_no_flaws(rows) {
        assert forall|i: int| 0 <= i < rows.len() implies is_sound_call(#[trigger] rows[i]) by {
            lemma_call_flaws(rows[i]);
        }
    }
    if forall|i: int| 0 <= i < rows.len() ==> is_sound_call(#[trigger] rows[i]) {
        assert forall|i: int, flaw: CallFlaw| 0 <= i < rows.len() implies !(
        #[trigger] rows[i].is_flawed(flaw)) by {
            lemma_call_flaws(rows[i]);
            assert(is_sound_call(rows[i]));
        }
    }
}

/// The snapshots of all calls have none of the four flaws.
pub open spec fn calls_have_no_flaws(rows: Seq<CallRow>) -> bool {
    &&& flawed_in_calls(rows, SnapshotFlaw::Subject) == 0
    &&& flawed_in_calls(rows, SnapshotFlaw::Completeness) == 0
    &&& flawed_in_calls(rows, SnapshotFlaw::Stage) == 0
    &&& flawed_in_calls(rows, SnapshotFlaw::MediaType) == 0
}

proof fn lemma_sound_snapshots_of_calls(rows: Seq<CallRow>)
    ensures
        calls_have_no_flaws(rows) <==> forall|i: int, j: int|
            0 <= i < rows.len() && 0 <= j < rows[i].snapshots@.len() ==> is_sound_snapshot(
                #[trigger] rows[i].snapshots@[j],
            ),
{
    lemma_no_flaw_in_calls(rows, SnapshotFlaw::Subject);
    lemma_no_flaw_in_calls(rows, SnapshotFlaw::Completeness);
    lemma_no_flaw_in_calls(rows, SnapshotFlaw::Stage);
    lemma_no_flaw_in_calls(rows, SnapshotFlaw::MediaType);
    if calls_have_no_flaws(rows) {
        assert forall|i: int, j: int|
            0 <= i < rows.len() && 0 <= j < rows[i].snapshots@.len() implies is_sound_snapshot(
            #[trigger] rows[i].snapshots@[j],
        ) by {
            lemma_sound_snapshots(rows[i].snapshots@);
        }
    }
    if forall|i: int, j: int|
        0 <= i < rows.len() && 0 <= j < rows[i].snapshots@.len() ==> is_sound_snapshot(
            #[trigger] rows[i].snapshots@[j],
        ) {
        assert forall|i: int| 0 <= i < rows.len() implies has_no_flaws(
            (#[trigger] rows[i]).snapshots@,
        ) by {
            lemma_sound_snapshots(rows[i].snapshots@);
        }
    }
}

/// Every call, every snapshot and every payload of an archive is sound, no payload is left over, the
/// database is intact and of this version, and the files are the owner's alone.
pub open spec fn is_sound_archive(contents: ArchiveContents) -> bool {
    &&& contents.integrity@ == "ok"@
    &&& contents.foreign_key_violations == 0
    &&& contents.version == 1
    &&& forall|i: int|
        0 <= i < contents.calls@.len() ==> is_sound_call(#[trigger] contents.calls@[i])
    &&& forall|i: int, j: int|
        0 <= i < contents.calls@.len() && 0 <= j < contents.calls@[i].snapshots@.len()
            ==> is_sound_snapshot(#[trigger] contents.calls@[i].snapshots@[j])
    &&& forall|i: int|
        0 <= i < contents.loose_snapshots@.len() ==> is_sound_snapshot(
            #[trigger] contents.loose_snapshots@[i],
        )
    &&& forall|i: int|
        0 <= i < contents.payloads@.len() ==> is_sound_payload(#[trigger] contents.payloads@[i])
    &&& forall|i: int|
        0 <= i < contents.payloads@.len() ==> (#[trigger] contents.payloads@[i]).is_referenced
    &&& contents.payload_errors@.len() == 0
    &&& contents.directory_mode % 512 == 448
    &&& contents.file_mode % 512 == 384
}

/// The check of an archive reports an error exactly where something is unsound.
pub proof fn lemma_sound_archives_have_no_errors(contents: ArchiveContents)
    ensures
        contents.all_errors().len() == 0 <==> is_sound_archive(contents),
{
    lemma_sound_calls(contents.calls@);
    lemma_sound_snapshots_of_calls(contents.calls@);
    lemma_sound_snapshots(contents.loose_snapshots@);
    lemma_sound_payloads(contents.payloads@);
    let directory = contents.directory_mode;
    let file = contents.file_mode;
    assert(directory & 0o777 == directory % 512) by (bit_vector);
    assert(file & 0o777 == file % 512) by (bit_vector);
    assert(contents.value_errors().len() == 0 <==> {
        &&& flawed_calls(contents.calls@, CallFlaw::Status) == 0
        &&& flawed_calls(contents.calls@, CallFlaw::RequiresStreams) == 0
        &&& flawed_calls(contents.calls@, CallFlaw::IsError) == 0
        &&& flawed_calls(contents.calls@, CallFlaw::Executed) == 0
        &&& flawed_calls(contents.calls@, CallFlaw::Lifecycle) == 0
        &&& flawed_calls(contents.calls@, CallFlaw::Reference) == 0
        &&& calls_have_no_flaws(contents.calls@)
        &&& has_no_flaws(contents.loose_snapshots@)
        &&& flawed_payloads(contents.payloads@) == 0
    });
    assert(contents.snapshot_errors().len() == 0 <==> {
        &&& flawed_calls(contents.calls@, CallFlaw::MissingInput) == 0
        &&& flawed_calls(contents.calls@, CallFlaw::MissingFinalResult) == 0
        &&& flawed_calls(contents.calls@, CallFlaw::MissingFirstResult) == 0
        &&& flawed_calls(contents.calls@, CallFlaw::MissingStreams) == 0
    });
}

/// The snapshots of the two streams are counted, before and after, and no others; calls that have
/// not ended are counted as such.
pub proof fn lemma_rows_are_counted(
    rows: Seq<SnapshotRow>,
    row: SnapshotRow,
    calls: Seq<CallRow>,
    call: CallRow,
)
    ensures
        stream_rows(Seq::empty()) == 0,
        stream_rows(rows.push(row)) == stream_rows(rows) + if (row.subject@ == "stdout"@
            || row.subject@ == "stderr"@) && (row.stage@ == "before"@ || row.stage@ == "after"@) {
            1int
        } else {
            0int
        },
        started_calls(Seq::empty()) == 0,
        started_calls(calls.push(call)) == started_calls(calls) + if call.status@ == "started"@ {
            1int
        } else {
            0int
        },
{
    assert(rows.push(row).drop_last() =~= rows);
    assert(calls.push(call).drop_last() =~= calls);
    lemma_one_of_two(row.subject@, "stdout", "stderr");
    lemma_one_of_two(row.stage@, "before", "after");
}

/// Tables that were brought up to date are accepted where no row was lost or added and every
/// reference and relation is valid. A backup asks for twice the space of the archive.
pub proof fn lemma_accepted_migrations(
    before: RowCounts,
    after: RowCounts,
    invalid: u64,
    violations: u64,
    bytes: u64,
)
    ensures
        migration_fault(before, after, invalid, violations) is None <==> {
            &&& before.calls == after.calls
            &&& before.snapshots == after.snapshots
            &&& invalid == 0
            &&& violations == 0
        },
        bytes + bytes <= u64::MAX ==> backup_space(bytes) == bytes + bytes,
        bytes + bytes > u64::MAX ==> backup_space(bytes) == u64::MAX,
{
}

} // verus!
