//! What holds of stored contents, of the files they come from, and of the course of a call.
use vstd::prelude::*;

use super::calls::{CallModel, IdentityModel, SnapshotModel, Stage, Subject, has_snapshot, identity_fault, stream_count};
use super::lifecycle::applied;
use super::model::VerifiedSource;
use super::operations::PreparedOperationKind;
use super::payload::{
    PreparedPayload, ZSTD_LEVEL, media_type_of, restores_to, zstd_compressed, zstd_restored,
};
use super::reference::is_archive_ref;
use super::sources::{
    ChosenSource, SourceFacts, StoredContents, is_restoration, is_same_source, is_verified_source,
    source_fault,
};
use crate::digest::sha256;

verus! {

/// Contents that are restored have the digest and the length that were stored with them. Nothing
/// but the stored bytes, or what they decompress to, is ever given back.
pub proof fn lemma_restored_contents_are_checked(
    result: Result<Vec<u8>, String>,
    label: Seq<char>,
    sha: Seq<u8>,
    compression: Seq<char>,
    length: i64,
    stored: Seq<u8>,
)
    requires
        restores_to(result, label, sha, compression, length, stored),
    ensures
        result matches Ok(bytes) ==> {
            &&& sha256(bytes@) == sha
            &&& bytes@.len() == length
            &&& compression == "none"@ && bytes@ == stored || compression == "zstd"@
                && zstd_restored(stored) == Ok::<Seq<u8>, Seq<char>>(bytes@)
        },
        compression == "none"@ && stored.len() == length && sha256(stored) == sha ==> result is Ok,
        compression == "zstd"@ && (zstd_restored(stored) matches Ok(bytes) && bytes.len() == length
            && sha256(bytes) == sha) ==> result is Ok,
{
    reveal_strlit("none");
    reveal_strlit("zstd");
    assert("none"@[0] == 'n' && "zstd"@[0] == 'z');
}

/// A source that is searched has the digest that was stored for it, the name and completeness that
/// it was chosen with, and the stored media type.
pub proof fn lemma_searched_source_is_intact(
    result: Result<VerifiedSource, String>,
    chosen: ChosenSource,
    stored: StoredContents,
)
    requires
        is_verified_source(result, chosen, stored),
    ensures
        result matches Ok(source) ==> {
            &&& sha256(source.body@) == stored.sha@
            &&& source.body@.len() == stored.uncompressed_length
            &&& source.name == chosen.name
            &&& source.completeness == chosen.completeness
            &&& source.media_type@ == stored.media_type@
        },
        stored.compression@ == "none"@ && stored.body@.len() == stored.uncompressed_length
            && sha256(stored.body@) == stored.sha@ ==> (result matches Ok(source) && source.body@
            == stored.body@),
{
    let label = chosen.name.text() + "/before"@;
    if stored.uncompressed_length >= 0 {
        let restored = choose|restored: Result<Vec<u8>, String>| #[trigger]
            restores_to(
                restored,
                label,
                stored.sha@,
                stored.compression@,
                stored.uncompressed_length,
                stored.body@,
            ) && match restored {
                Ok(body) => result matches Ok(source) && source.name == chosen.name
                    && source.completeness == chosen.completeness && source.media_type@
                    == stored.media_type@ && source.body@ == body@,
                Err(message) => result matches Err(error) && error@ == message@,
            };
        lemma_restored_contents_are_checked(
            restored,
            label,
            stored.sha@,
            stored.compression@,
            stored.uncompressed_length,
            stored.body@,
        );
        reveal_strlit("none");
        reveal_strlit("zstd");
        assert("none"@[0] == 'n' && "zstd"@[0] == 'z');
    }
}

/// Streams that are restored are the two that were stored, each in its place: the first has the
/// digest of standard output, the second that of standard error.
pub proof fn lemma_restored_streams_keep_their_places(
    result: Result<(Vec<u8>, Vec<u8>), String>,
    stdout: StoredContents,
    stderr: StoredContents,
)
    requires
        is_restoration(result, stdout, stderr),
    ensures
        result matches Ok(streams) ==> {
            &&& sha256(streams.0@) == stdout.sha@
            &&& streams.0@.len() == stdout.uncompressed_length
            &&& sha256(streams.1@) == stderr.sha@
            &&& streams.1@.len() == stderr.uncompressed_length
        },
        stdout.compression@ == "none"@ && stdout.body@.len() == stdout.uncompressed_length
            && sha256(stdout.body@) == stdout.sha@ && stderr.compression@ == "none"@
            && stderr.body@.len() == stderr.uncompressed_length && sha256(stderr.body@)
            == stderr.sha@ ==> (result matches Ok(streams) && streams.0@ == stdout.body@
            && streams.1@ == stderr.body@),
{
    let (first, second) = choose|
        first: Result<Vec<u8>, String>,
        second: Result<Vec<u8>, String>,
    |
        #![trigger super::sources::both(first, second)]
        super::sources::both(first, second) == result && restores_to(
            first,
            "stdout/before"@,
            stdout.sha@,
            stdout.compression@,
            stdout.uncompressed_length,
            stdout.body@,
        ) && restores_to(
            second,
            "stderr/before"@,
            stderr.sha@,
            stderr.compression@,
            stderr.uncompressed_length,
            stderr.body@,
        );
    lemma_restored_contents_are_checked(
        first,
        "stdout/before"@,
        stdout.sha@,
        stdout.compression@,
        stdout.uncompressed_length,
        stdout.body@,
    );
    lemma_restored_contents_are_checked(
        second,
        "stderr/before"@,
        stderr.sha@,
        stderr.compression@,
        stderr.uncompressed_length,
        stderr.body@,
    );
    reveal_strlit("none");
    reveal_strlit("zstd");
    assert("none"@[0] == 'n' && "zstd"@[0] == 'z');
}

/// Contents are stored compressed where that saves a twentieth of them, and as they are otherwise.
pub proof fn lemma_compression_saves_a_twentieth(payload: PreparedPayload, contents: Seq<u8>)
    requires
        payload.prepares(contents),
    ensures
        zstd_compressed(contents, ZSTD_LEVEL) is Ok,
        ({
            let smaller = zstd_compressed(contents, ZSTD_LEVEL)->Ok_0;
            &&& 20 * smaller.len() <= 19 * contents.len() ==> payload.compressed
                && payload.stored@ == smaller
            &&& 20 * smaller.len() > 19 * contents.len() ==> !payload.compressed
                && payload.stored@ == contents
        }),
        payload.sha@ == sha256(contents),
        payload.uncompressed_length == contents.len(),
        ZSTD_LEVEL == 3,
{
}

/// Any text is stored as text, and what is no text as bytes.
pub proof fn lemma_text_is_stored_as_text(text: Seq<char>, bytes: Seq<u8>)
    ensures
        media_type_of(vstd::utf8::encode_utf8(text)) == "text/plain; charset=utf-8"@,
        !vstd::utf8::valid_utf8(bytes) ==> media_type_of(bytes) == "application/octet-stream"@,
{
    vstd::utf8::encode_utf8_valid_utf8(text);
}

/// A file is archived where it is a regular file and no link, belongs to the user, grants nothing
/// to others, and holds at most 256 MiB.
pub proof fn lemma_private_files_are_archived(facts: SourceFacts, owner: u32)
    ensures
        source_fault(facts, owner) is None <==> {
            &&& facts.is_regular
            &&& !facts.is_symlink
            &&& facts.owner == owner
            &&& facts.mode % 64 == 0
            &&& facts.length <= 268_435_456
        },
{
    let mode = facts.mode;
    assert(mode & 0o077 == 0 <==> mode % 64 == 0) by (bit_vector);
}

/// A file has not changed where it is the same one, as long as before, and was not written since.
pub proof fn lemma_unchanged_files_are_accepted(left: SourceFacts, right: SourceFacts)
    ensures
        is_same_source(left, left),
        is_same_source(left, right) ==> left.device == right.device && left.inode == right.inode
            && left.length == right.length && left.modified_s == right.modified_s
            && left.modified_ns == right.modified_ns,
        is_same_source(left, SourceFacts { mode: right.mode, owner: right.owner, ..left }),
{
}

/// A lower-case hexadecimal digit.
pub open spec fn is_hex_digit(c: char) -> bool {
    '0' <= c <= '9' || 'a' <= c <= 'f'
}

/// A reference is `yr_` and 32 lower-case hexadecimal digits.
pub proof fn lemma_form_of_references(value: Seq<char>)
    ensures
        is_archive_ref(value) <==> {
            &&& value.len() == 35
            &&& value[0] == 'y' && value[1] == 'r' && value[2] == '_'
            &&& forall|i: int| 3 <= i < 35 ==> is_hex_digit(#[trigger] value[i])
        },
{
    reveal_strlit("yr_");
    if is_archive_ref(value) {
        assert(value.take(3)[0] == 'y' && value.take(3)[1] == 'r' && value.take(3)[2] == '_');
        assert forall|i: int| 3 <= i < 35 implies is_hex_digit(#[trigger] value[i]) by {
            assert(value.skip(3)[i - 3] == value[i]);
        }
    } else if value.len() == 35 && value[0] == 'y' && value[1] == 'r' && value[2] == '_' && (
    forall|i: int| 3 <= i < 35 ==> is_hex_digit(#[trigger] value[i])) {
        assert(value.take(3) =~= "yr_"@);
        assert forall|i: int| 0 <= i < value.skip(3).len() implies is_hex_digit(
            #[trigger] value.skip(3)[i],
        ) by {
            assert(value[i + 3] == value.skip(3)[i]);
        }
    }
}

/// A call that began twice is one call where all that is known of it agrees.
pub proof fn lemma_repeated_start_agrees(record: CallModel, call: IdentityModel)
    ensures
        is_archive_ref(record.archive_ref) && record.call == call ==> identity_fault(record, call)
            is None,
        identity_fault(record, call) is None ==> {
            &&& is_archive_ref(record.archive_ref)
            &&& record.call.tool_name == call.tool_name
            &&& record.call.provider == call.provider
            &&& record.call.model == call.model
            &&& record.call.working_directory == call.working_directory
            &&& record.call.started_at_ms == call.started_at_ms
            &&& record.call.requires_streams == call.requires_streams
        },
{
}

/// The snapshots of the two streams are counted, and no others.
pub proof fn lemma_streams_are_counted(snapshots: Seq<SnapshotModel>, snapshot: SnapshotModel)
    ensures
        stream_count(Seq::empty()) == 0,
        stream_count(snapshots.push(snapshot)) == stream_count(snapshots) + if snapshot.subject
            == Subject::Stdout || snapshot.subject == Subject::Stderr {
            1int
        } else {
            0int
        },
{
    assert(snapshots.push(snapshot).drop_last() =~= snapshots);
}

/// Only the operations that end a call change its status; they make it a finished call, with the
/// time and the outcome that they were given. A result that is staged leaves the call started.
pub proof fn lemma_course_of_a_call(kind: PreparedOperationKind, record: CallModel)
    requires
        applied(kind, record) is Ok,
    ensures
        ({
            let left = applied(kind, record)->Ok_0;
            match kind {
                PreparedOperationKind::StageResult { is_error, .. } => {
                    &&& record.status == "started"@
                    &&& left.record.status == "started"@
                    &&& left.record.finished_at_ms == record.finished_at_ms
                    &&& left.record.is_error == Some(is_error)
                    &&& left.record.executed == Some(true)
                    &&& left.reply is None
                },
                PreparedOperationKind::FinishCall {
                    is_error,
                    require_pre_result,
                    finished_at_ms,
                    ..
                } => {
                    &&& left.record.status == "finished"@
                    &&& left.record.finished_at_ms == Some(finished_at_ms)
                    &&& left.record.is_error == Some(is_error)
                    &&& left.record.executed == Some(require_pre_result)
                    &&& left.reply is None
                },
                PreparedOperationKind::UpdateFinalResult { is_error, finished_at_ms, .. } => {
                    &&& record.status == "started"@ || record.status == "finished"@
                    &&& left.record.status == "finished"@
                    &&& left.record.finished_at_ms == Some(finished_at_ms)
                    &&& left.record.is_error == Some(is_error)
                    &&& left.record.executed == Some(true)
                    &&& record.status == "finished"@ ==> left.record == record
                    &&& left.reply is None
                },
                _ => {
                    &&& left.record.status == record.status
                    &&& left.record.finished_at_ms == record.finished_at_ms
                    &&& left.record.is_error == record.is_error
                    &&& left.record.executed == record.executed
                    &&& kind is BeginCall || kind is ResultText ==> left.reply == Some(
                        record.archive_ref,
                    )
                    &&& kind is ResultBefore || kind is CaptureStreams ==> left.reply is None
                },
            }
        }),
{
}

/// A call that ran is not ended before its own result was stored, nor, where its streams are
/// asked for, before all four snapshots of them were.
pub proof fn lemma_ended_calls_are_complete(kind: PreparedOperationKind, record: CallModel)
    requires
        applied(kind, record) is Ok,
        kind is StageResult || kind is UpdateFinalResult && record.status != "finished"@ || (
        kind is FinishCall && kind->FinishCall_require_pre_result),
    ensures
        has_snapshot(record.snapshots, Subject::ToolResult, Stage::Before),
        record.call.requires_streams ==> stream_count(record.snapshots) == 4,
{
}

/// A call that ran, has its result and all the streams that are asked for, and has no final result
/// yet can be ended.
pub proof fn lemma_complete_calls_can_be_ended(kind: PreparedOperationKind, record: CallModel)
    requires
        kind is FinishCall,
        kind->FinishCall_require_pre_result ==> has_snapshot(
            record.snapshots,
            Subject::ToolResult,
            Stage::Before,
        ),
        kind->FinishCall_require_pre_result && record.call.requires_streams ==> stream_count(
            record.snapshots,
        ) == 4,
        !has_snapshot(record.snapshots, Subject::ToolResult, Stage::After),
    ensures
        applied(kind, record) is Ok,
{
}

} // verus!
