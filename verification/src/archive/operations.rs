//! How an operation is prepared, and what it does to the record of its call.
use vstd::prelude::*;

use super::model::{CallIdentity, SessionIdentity, SourceCompleteness};
use super::payload::{
    PreparedPayload, media_type_of, prepare_payload, stream_media_type, zstd_compressed,
};
use crate::archive_protocol::{ArchiveOperation, INGEST_SCHEMA_VERSION};
use crate::bytes::copy;
use crate::frames::MAX_FRAME_BYTES;
use crate::text::{decimal, digits, join2, join4, texts};

verus! {

/// What JSON text is written to in canonical form. Of other text, what is said to be wrong with it.
pub uninterp spec fn canonical_form(json: Seq<u8>) -> Result<Seq<u8>, Seq<char>>;

/// Calls `serde_jcs::to_vec` on the value that the bytes write as JSON: the canonical form of RFC
/// 8785. The contract says that the result, the text of an error among it, depends on the bytes
/// alone.
#[verifier::external_body]
fn canonicalize(json: &[u8]) -> (result: Result<Vec<u8>, String>)
    ensures
        match result {
            Ok(canonical) => canonical_form(json@) matches Ok(named) && named == canonical@,
            Err(reason) => canonical_form(json@) matches Err(named) && named == reason@,
        },
{
    let value: serde_json::Value = serde_json::from_slice(json).map_err(|error| error.to_string())?;
    serde_jcs::to_vec(&value).map_err(|error| error.to_string())
}

/// Write JSON text in canonical form.
///
/// # Errors
///
/// Returns an error when the text is not JSON.
pub fn canonical_json(json: &[u8]) -> (result: Result<Vec<u8>, String>)
    ensures
        match canonical_form(json@) {
            Ok(canonical) => result matches Ok(bytes) && bytes@ == canonical,
            Err(reason) => result matches Err(error) && error@
                == "could not canonicalize JSON payload: "@ + reason,
        },
{
    match canonicalize(json) {
        Ok(canonical) => Ok(canonical),
        Err(reason) => Err(join2("could not canonicalize JSON payload: ", reason.as_str())),
    }
}

/// Contents that an operation stores, before they are prepared.
#[derive(Debug)]
pub enum Part {
    /// JSON, which is stored in canonical form.
    Json(Vec<u8>),
    /// Bytes, which are stored as they are.
    Plain(Vec<u8>),
    /// A file that could not be read.
    Unreadable(String),
}

impl Part {
    /// What is stored, or why there is nothing to store.
    pub open spec fn contents(self) -> Result<Seq<u8>, Seq<char>> {
        match self {
            Part::Json(json) => match canonical_form(json@) {
                Ok(canonical) => Ok(canonical),
                Err(reason) => Err("could not canonicalize JSON payload: "@ + reason),
            },
            Part::Plain(bytes) => Ok(bytes@),
            Part::Unreadable(reason) => Err(reason@),
        }
    }

    /// What keeps the part from being prepared.
    pub open spec fn fault(self) -> Option<Seq<char>> {
        match self.contents() {
            Err(reason) => Some(reason),
            Ok(contents) => if contents.len() > MAX_FRAME_BYTES {
                Some(
                    "prepared payload is "@ + digits(
                        super::payload::noticed_length(contents.len()),
                    ) + " bytes; maximum is "@ + digits(MAX_FRAME_BYTES as nat),
                )
            } else {
                match zstd_compressed(contents, super::payload::ZSTD_LEVEL) {
                    Ok(_) => None,
                    Err(reason) => Some("could not compress prepared payload: "@ + reason),
                }
            },
        }
    }

    /// The part can be prepared.
    pub open spec fn is_preparable(self) -> bool {
        self.fault() is None
    }
}

/// Prepare one part.
///
/// # Errors
///
/// Returns an error when it cannot be read, is no JSON, is too long or cannot be compressed.
pub fn prepare_part(part: &Part) -> (result: Result<PreparedPayload, String>)
    ensures
        match result {
            Ok(payload) => part.fault() is None && is_from(payload, *part),
            Err(error) => part.fault() == Some(error@),
        },
{
    match part {
        Part::Json(json) => match canonical_json(json.as_slice()) {
            Ok(canonical) => prepare_payload(canonical.as_slice()),
            Err(error) => Err(error),
        },
        Part::Plain(bytes) => prepare_payload(bytes.as_slice()),
        Part::Unreadable(reason) => Err(reason.clone()),
    }
}

/// The payloads are what the parts are prepared to.
pub open spec fn are_prepared(payloads: Seq<PreparedPayload>, parts: Seq<Part>) -> bool {
    &&& payloads.len() == parts.len()
    &&& forall|i: int|
        0 <= i < parts.len() ==> (#[trigger] parts[i]).contents() is Ok && payloads[i].prepares(
            parts[i].contents()->Ok_0,
        ) && parts[i].is_preparable()
}

/// The part is the first that cannot be prepared.
pub open spec fn is_first_fault(parts: Seq<Part>, place: int) -> bool {
    &&& 0 <= place < parts.len()
    &&& !parts[place].is_preparable()
    &&& forall|i: int| 0 <= i < place ==> (#[trigger] parts[i]).is_preparable()
}

/// Prepare some parts, one after the other.
///
/// # Errors
///
/// Returns the error of the first part that cannot be prepared.
pub fn prepare_parts(parts: &Vec<Part>) -> (result: Result<Vec<PreparedPayload>, String>)
    ensures
        match result {
            Ok(payloads) => are_prepared(payloads@, parts@),
            Err(error) => exists|place: int| #[trigger]
                is_first_fault(parts@, place) && parts@[place].fault() == Some(error@),
        },
{
    let mut payloads: Vec<PreparedPayload> = Vec::new();
    let mut i: usize = 0;
    while i < parts.len()
        invariant
            i <= parts@.len(),
            are_prepared(payloads@, parts@.take(i as int)),
        decreases parts@.len() - i,
    {
        let ghost before = payloads@;
        match prepare_part(&parts[i]) {
            Ok(payload) => {
                payloads.push(payload);
                proof {
                    let longer = parts@.take(i + 1);
                    assert forall|j: int| 0 <= j < longer.len() implies (
                    #[trigger] longer[j]).contents() is Ok && payloads@[j].prepares(
                        longer[j].contents()->Ok_0,
                    ) && longer[j].is_preparable() by {
                        if j < i {
                            assert(parts@.take(i as int)[j] == longer[j]);
                        }
                    }
                }
            },
            Err(error) => {
                proof {
                    assert forall|j: int| 0 <= j < i implies (
                    #[trigger] parts@[j]).is_preparable() by {
                        assert(parts@.take(i as int)[j] == parts@[j]);
                    }
                    assert(is_first_fault(parts@, i as int));
                }
                return Err(error);
            },
        }
        i += 1;
    }
    assert(parts@.take(i as int) =~= parts@);
    Ok(payloads)
}

/// Contents with the media type that they have.
#[derive(Debug)]
pub struct PreparedSnapshot {
    pub media_type: String,
    pub payload: PreparedPayload,
}

/// What an operation does, with its contents prepared.
#[derive(Debug)]
pub enum PreparedOperationKind {
    BeginCall {
        session: SessionIdentity,
        call: CallIdentity,
        before: PreparedPayload,
        after: PreparedPayload,
        captured_at_ms: i64,
    },
    ResultBefore {
        session: SessionIdentity,
        source_call_id: String,
        result: PreparedPayload,
        source_output: Option<PreparedSnapshot>,
        captured_at_ms: i64,
    },
    ResultText {
        session: SessionIdentity,
        source_call_id: String,
        text: PreparedPayload,
        completeness: SourceCompleteness,
        captured_at_ms: i64,
    },
    StageResult {
        session: SessionIdentity,
        source_call_id: String,
        result: PreparedPayload,
        is_error: bool,
        captured_at_ms: i64,
    },
    FinishCall {
        session: SessionIdentity,
        source_call_id: String,
        result: PreparedPayload,
        is_error: bool,
        require_pre_result: bool,
        finished_at_ms: i64,
    },
    UpdateFinalResult {
        session: SessionIdentity,
        source_call_id: String,
        result: PreparedPayload,
        is_error: bool,
        finished_at_ms: i64,
    },
    CaptureStreams {
        session: SessionIdentity,
        source_call_id: String,
        captured_at_ms: i64,
        stdout_before: PreparedSnapshot,
        stderr_before: PreparedSnapshot,
        stdout_after: PreparedSnapshot,
        stderr_after: PreparedSnapshot,
    },
    PruneBefore { timestamp_ms: i64 },
}

/// An operation with its contents prepared, and how many bytes it writes.
#[derive(Debug)]
pub struct PreparedArchiveOperation {
    pub estimated_bytes: u64,
    pub kind: PreparedOperationKind,
}

/// The files that an operation stores, in the order in which they are read. Output that was passed
/// through is stored twice.
pub open spec fn paths_of(operation: ArchiveOperation) -> Seq<Seq<char>> {
    match operation {
        ArchiveOperation::ResultBefore { full_output_path: Some(path), .. } => seq![path@],
        ArchiveOperation::CaptureStreams {
            stdout_before_path,
            stderr_before_path,
            stdout_after_path,
            stderr_after_path,
            ..
        } => seq![
            stdout_before_path@,
            stderr_before_path@,
            stdout_after_path@,
            stderr_after_path@,
        ],
        ArchiveOperation::CapturePassthroughStreams { stdout_path, stderr_path, .. } => seq![
            stdout_path@,
            stdout_path@,
            stderr_path@,
            stderr_path@,
        ],
        _ => Seq::empty(),
    }
}

/// List the files that an operation stores, in the order in which they are read.
pub fn source_paths(operation: &ArchiveOperation) -> (paths: Vec<String>)
    ensures
        texts(paths@) == paths_of(*operation),
{
    let mut paths: Vec<String> = Vec::new();
    match operation {
        ArchiveOperation::ResultBefore { full_output_path, .. } => {
            if let Some(path) = full_output_path {
                paths.push(path.clone());
            }
        },
        ArchiveOperation::CaptureStreams {
            stdout_before_path,
            stderr_before_path,
            stdout_after_path,
            stderr_after_path,
            ..
        } => {
            paths.push(stdout_before_path.clone());
            paths.push(stderr_before_path.clone());
            paths.push(stdout_after_path.clone());
            paths.push(stderr_after_path.clone());
        },
        ArchiveOperation::CapturePassthroughStreams { stdout_path, stderr_path, .. } => {
            paths.push(stdout_path.clone());
            paths.push(stdout_path.clone());
            paths.push(stderr_path.clone());
            paths.push(stderr_path.clone());
        },
        _ => {},
    }
    assert(texts(paths@) =~= paths_of(*operation));
    paths
}

/// A file as a part.
pub open spec fn is_file_part(part: Part, file: Result<Vec<u8>, String>) -> bool {
    match file {
        Ok(bytes) => part matches Part::Plain(contents) && contents@ == bytes@,
        Err(reason) => part matches Part::Unreadable(error) && error@ == reason@,
    }
}

/// The parts hold JSON texts first, and files after them.
pub open spec fn are_parts(
    parts: Seq<Part>,
    json: Seq<Seq<u8>>,
    files: Seq<Result<Vec<u8>, String>>,
) -> bool {
    &&& parts.len() == json.len() + files.len()
    &&& forall|i: int|
        0 <= i < json.len() ==> (#[trigger] parts[i] matches Part::Json(text) && text@ == json[i])
    &&& forall|i: int|
        0 <= i < files.len() ==> is_file_part(parts[json.len() + i], #[trigger] files[i])
}

/// The JSON texts that an operation stores.
pub open spec fn json_of(operation: ArchiveOperation) -> Seq<Seq<u8>> {
    match operation {
        ArchiveOperation::BeginCall { input_before, input_after, .. } => seq![
            input_before@,
            input_after@,
        ],
        ArchiveOperation::ResultBefore { result, .. } => seq![result@],
        ArchiveOperation::StageResult { result, .. } => seq![result@],
        ArchiveOperation::FinishCall { result, .. } => seq![result@],
        ArchiveOperation::UpdateFinalResult { result, .. } => seq![result@],
        _ => Seq::empty(),
    }
}

/// The parts of an operation, in the order in which they are prepared.
pub open spec fn are_parts_of(
    parts: Seq<Part>,
    operation: ArchiveOperation,
    files: Seq<Result<Vec<u8>, String>>,
) -> bool {
    match operation {
        ArchiveOperation::ResultText { text, .. } => parts.len() == 1 && (
        parts[0] matches Part::Plain(bytes) && bytes@ == vstd::utf8::encode_utf8(text@)),
        _ => are_parts(parts, json_of(operation), files),
    }
}

/// List the parts of an operation, given what was read of its files.
pub fn operation_parts(operation: &ArchiveOperation, files: &Vec<Result<Vec<u8>, String>>) -> (parts:
    Vec<Part>)
    requires
        files@.len() == paths_of(*operation).len(),
    ensures
        are_parts_of(parts@, *operation, files@),
{
    let mut parts: Vec<Part> = Vec::new();
    match operation {
        ArchiveOperation::BeginCall { input_before, input_after, .. } => {
            parts.push(Part::Json(copy(input_before.as_slice())));
            parts.push(Part::Json(copy(input_after.as_slice())));
        },
        ArchiveOperation::ResultBefore { result, .. } => {
            parts.push(Part::Json(copy(result.as_slice())));
        },
        ArchiveOperation::ResultText { text, .. } => {
            parts.push(Part::Plain(copy(text.as_str().as_bytes())));
            return parts;
        },
        ArchiveOperation::StageResult { result, .. } => {
            parts.push(Part::Json(copy(result.as_slice())));
        },
        ArchiveOperation::FinishCall { result, .. } => {
            parts.push(Part::Json(copy(result.as_slice())));
        },
        ArchiveOperation::UpdateFinalResult { result, .. } => {
            parts.push(Part::Json(copy(result.as_slice())));
        },
        _ => {},
    }
    let ghost json = json_of(*operation);
    assert(are_parts(parts@, json, files@.take(0)));
    let mut i: usize = 0;
    while i < files.len()
        invariant
            i <= files@.len(),
            are_parts(parts@, json, files@.take(i as int)),
        decreases files@.len() - i,
    {
        let ghost before = parts@;
        let part = match &files[i] {
            Ok(bytes) => Part::Plain(copy(bytes.as_slice())),
            Err(reason) => Part::Unreadable(reason.clone()),
        };
        parts.push(part);
        proof {
            let longer = files@.take(i + 1);
            assert forall|j: int| 0 <= j < longer.len() implies is_file_part(
                parts@[json.len() + j],
                #[trigger] longer[j],
            ) by {
                if j < i {
                    assert(files@.take(i as int)[j] == longer[j]);
                    assert(is_file_part(before[json.len() + j], files@.take(i as int)[j]));
                }
            }
            assert forall|j: int| 0 <= j < json.len() implies (
            #[trigger] parts@[j] matches Part::Json(text) && text@ == json[j]) by {
                assert(before[j] == parts@[j]);
            }
        }
        i += 1;
    }
    assert(files@.take(i as int) =~= files@);
    parts
}

/// The payload is what some part is prepared to.
pub open spec fn is_from(payload: PreparedPayload, part: Part) -> bool {
    part.contents() matches Ok(contents) && payload.prepares(contents)
}

/// The snapshot is what some part is prepared to, with its media type.
pub open spec fn is_stream_from(snapshot: PreparedSnapshot, part: Part) -> bool {
    &&& part.contents() matches Ok(contents) && snapshot.payload.prepares(contents)
        && snapshot.media_type@ == media_type_of(contents)
}

/// The prepared operation does what the operation says, with the given parts.
pub open spec fn is_prepared_from(
    kind: PreparedOperationKind,
    operation: ArchiveOperation,
    parts: Seq<Part>,
) -> bool {
    match (kind, operation) {
        (
            PreparedOperationKind::BeginCall { session, call, before, after, captured_at_ms },
            ArchiveOperation::BeginCall { session: s, call: c, captured_at_ms: at, .. },
        ) => session == s && call == c && captured_at_ms == at && is_from(before, parts[0])
            && is_from(after, parts[1]),
        (
            PreparedOperationKind::ResultBefore {
                session,
                source_call_id,
                result,
                source_output,
                captured_at_ms,
            },
            ArchiveOperation::ResultBefore {
                session: s,
                source_call_id: id,
                full_output_path,
                captured_at_ms: at,
                ..
            },
        ) => session == s && source_call_id == id && captured_at_ms == at && is_from(
            result,
            parts[0],
        ) && match (source_output, full_output_path) {
            (None, None) => true,
            (Some(output), Some(_)) => is_stream_from(output, parts[1]),
            _ => false,
        },
        (
            PreparedOperationKind::ResultText {
                session,
                source_call_id,
                text,
                completeness,
                captured_at_ms,
            },
            ArchiveOperation::ResultText {
                session: s,
                source_call_id: id,
                source_completeness,
                captured_at_ms: at,
                ..
            },
        ) => session == s && source_call_id == id && captured_at_ms == at && completeness
            == source_completeness && is_from(text, parts[0]),
        (
            PreparedOperationKind::StageResult {
                session,
                source_call_id,
                result,
                is_error,
                captured_at_ms,
            },
            ArchiveOperation::StageResult {
                session: s,
                source_call_id: id,
                is_error: e,
                captured_at_ms: at,
                ..
            },
        ) => session == s && source_call_id == id && is_error == e && captured_at_ms == at
            && is_from(result, parts[0]),
        (
            PreparedOperationKind::FinishCall {
                session,
                source_call_id,
                result,
                is_error,
                require_pre_result,
                finished_at_ms,
            },
            ArchiveOperation::FinishCall {
                session: s,
                source_call_id: id,
                is_error: e,
                require_pre_result: r,
                finished_at_ms: at,
                ..
            },
        ) => session == s && source_call_id == id && is_error == e && require_pre_result == r
            && finished_at_ms == at && is_from(result, parts[0]),
        (
            PreparedOperationKind::UpdateFinalResult {
                session,
                source_call_id,
                result,
                is_error,
                finished_at_ms,
            },
            ArchiveOperation::UpdateFinalResult {
                session: s,
                source_call_id: id,
                is_error: e,
                finished_at_ms: at,
                ..
            },
        ) => session == s && source_call_id == id && is_error == e && finished_at_ms == at
            && is_from(result, parts[0]),
        (
            PreparedOperationKind::CaptureStreams {
                session,
                source_call_id,
                captured_at_ms,
                stdout_before,
                stderr_before,
                stdout_after,
                stderr_after,
            },
            ArchiveOperation::CaptureStreams {
                session: s,
                source_call_id: id,
                captured_at_ms: at,
                ..
            },
        ) => session == s && source_call_id == id && captured_at_ms == at && is_stream_from(
            stdout_before,
            parts[0],
        ) && is_stream_from(stderr_before, parts[1]) && is_stream_from(stdout_after, parts[2])
            && is_stream_from(stderr_after, parts[3]),
        (
            PreparedOperationKind::CaptureStreams {
                session,
                source_call_id,
                captured_at_ms,
                stdout_before,
                stderr_before,
                stdout_after,
                stderr_after,
            },
            ArchiveOperation::CapturePassthroughStreams {
                session: s,
                source_call_id: id,
                captured_at_ms: at,
                ..
            },
        ) => session == s && source_call_id == id && captured_at_ms == at && is_stream_from(
            stdout_before,
            parts[0],
        ) && is_stream_from(stdout_after, parts[1]) && is_stream_from(stderr_before, parts[2])
            && is_stream_from(stderr_after, parts[3]),
        (
            PreparedOperationKind::PruneBefore { timestamp_ms },
            ArchiveOperation::PruneBefore { timestamp_ms: at, .. },
        ) => timestamp_ms == at,
        _ => false,
    }
}

/// The bytes that some prepared contents take.
pub open spec fn stored_bytes(payloads: Seq<PreparedPayload>) -> nat
    decreases payloads.len(),
{
    if payloads.len() == 0 {
        0
    } else {
        stored_bytes(payloads.drop_last()) + payloads.last().stored@.len()
    }
}

/// The payloads that a prepared operation writes.
pub open spec fn payloads_of(kind: PreparedOperationKind) -> Seq<PreparedPayload> {
    match kind {
        PreparedOperationKind::BeginCall { before, after, .. } => seq![before, after],
        PreparedOperationKind::ResultBefore { result, source_output: None, .. } => seq![result],
        PreparedOperationKind::ResultBefore { result, source_output: Some(output), .. } => seq![
            result,
            output.payload,
        ],
        PreparedOperationKind::ResultText { text, .. } => seq![text],
        PreparedOperationKind::StageResult { result, .. } => seq![result],
        PreparedOperationKind::FinishCall { result, .. } => seq![result],
        PreparedOperationKind::UpdateFinalResult { result, .. } => seq![result],
        PreparedOperationKind::CaptureStreams {
            stdout_before,
            stderr_before,
            stdout_after,
            stderr_after,
            ..
        } => seq![
            stdout_before.payload,
            stderr_before.payload,
            stdout_after.payload,
            stderr_after.payload,
        ],
        PreparedOperationKind::PruneBefore { .. } => Seq::empty(),
    }
}

impl PreparedOperationKind {
    /// The payloads to be stored for the operation, in their order.
    pub fn payloads(&self) -> (payloads: Vec<&PreparedPayload>)
        ensures
            payloads@.len() == payloads_of(*self).len(),
            forall|i: int|
                0 <= i < payloads@.len() ==> *#[trigger] payloads@[i] == payloads_of(*self)[i],
    {
        match self {
            PreparedOperationKind::BeginCall { before, after, .. } => vec![before, after],
            PreparedOperationKind::ResultBefore { result, source_output, .. } => {
                let mut payloads: Vec<&PreparedPayload> = vec![result];
                if let Some(output) = source_output {
                    payloads.push(&output.payload);
                }
                payloads
            },
            PreparedOperationKind::ResultText { text, .. } => vec![text],
            PreparedOperationKind::StageResult { result, .. } => vec![result],
            PreparedOperationKind::FinishCall { result, .. } => vec![result],
            PreparedOperationKind::UpdateFinalResult { result, .. } => vec![result],
            PreparedOperationKind::CaptureStreams {
                stdout_before,
                stderr_before,
                stdout_after,
                stderr_after,
                ..
            } => vec![
                &stdout_before.payload,
                &stderr_before.payload,
                &stdout_after.payload,
                &stderr_after.payload,
            ],
            PreparedOperationKind::PruneBefore { .. } => Vec::new(),
        }
    }
}

/// A payload takes no more than the contents may.
proof fn lemma_stored_length(payload: PreparedPayload, contents: Seq<u8>)
    requires
        payload.prepares(contents),
        contents.len() <= MAX_FRAME_BYTES,
    ensures
        payload.stored@.len() <= MAX_FRAME_BYTES,
{
}

/// A file with its media type and contents, taken from a part that was prepared.
fn stream_of(part: &Part, payload: PreparedPayload) -> (snapshot: PreparedSnapshot)
    requires
        part is Plain,
        is_from(payload, *part),
    ensures
        is_stream_from(snapshot, *part),
        snapshot.payload == payload,
{
    let media_type = match part {
        Part::Plain(bytes) => stream_media_type(bytes.as_slice()).to_owned(),
        Part::Json(_) => String::new(),
        Part::Unreadable(_) => String::new(),
    };
    PreparedSnapshot { media_type, payload }
}

/// The sum of some lengths.
fn total(payloads: &Vec<PreparedPayload>) -> (bytes: u64)
    requires
        payloads@.len() <= 4,
        forall|i: int|
            0 <= i < payloads@.len() ==> (#[trigger] payloads@[i]).stored@.len()
                <= MAX_FRAME_BYTES,
    ensures
        bytes == stored_bytes(payloads@),
{
    let mut bytes: u64 = 0;
    let mut i: usize = 0;
    assert(payloads@.take(0) =~= Seq::empty());
    while i < payloads.len()
        invariant
            i <= payloads@.len() <= 4,
            forall|j: int|
                0 <= j < payloads@.len() ==> (#[trigger] payloads@[j]).stored@.len()
                    <= MAX_FRAME_BYTES,
            bytes == stored_bytes(payloads@.take(i as int)),
            bytes <= i * MAX_FRAME_BYTES,
        decreases payloads@.len() - i,
    {
        proof {
            let longer = payloads@.take(i + 1);
            assert(longer.drop_last() =~= payloads@.take(i as int));
            assert(i * MAX_FRAME_BYTES + MAX_FRAME_BYTES == (i + 1) * MAX_FRAME_BYTES)
                by (nonlinear_arith);
            assert(i * MAX_FRAME_BYTES <= 4 * MAX_FRAME_BYTES) by (nonlinear_arith)
                requires
                    i <= 4,
            ;
        }
        bytes = bytes + payloads[i].stored_length();
        i += 1;
    }
    assert(payloads@.take(i as int) =~= payloads@);
    bytes
}

/// The order of the payloads of a prepared operation is not that of its parts where output was
/// passed through; their total length is the same.
proof fn lemma_four(payloads: Seq<PreparedPayload>)
    requires
        payloads.len() == 4,
    ensures
        stored_bytes(payloads) == stored_bytes(
            seq![payloads[0], payloads[2], payloads[1], payloads[3]],
        ),
        stored_bytes(payloads) == payloads[0].stored@.len() + payloads[1].stored@.len()
            + payloads[2].stored@.len() + payloads[3].stored@.len(),
{
    reveal_with_fuel(stored_bytes, 5);
    let other = seq![payloads[0], payloads[2], payloads[1], payloads[3]];
    assert(payloads.drop_last().drop_last().drop_last().drop_last() =~= Seq::empty());
    assert(other.drop_last().drop_last().drop_last().drop_last() =~= Seq::empty());
}

/// The outcome of preparing an operation: the version is checked first, and the first part that
/// cannot be prepared gives the error.
pub open spec fn is_preparation(
    result: Result<PreparedArchiveOperation, String>,
    operation: ArchiveOperation,
    parts: Seq<Part>,
) -> bool {
    if operation.version() != INGEST_SCHEMA_VERSION {
        result matches Err(error) && error@ == "unsupported ingest schema version "@ + digits(
            operation.version() as nat,
        ) + "; expected "@ + digits(INGEST_SCHEMA_VERSION as nat)
    } else {
        match result {
            Ok(prepared) => {
                &&& forall|i: int| 0 <= i < parts.len() ==> (#[trigger] parts[i]).is_preparable()
                &&& is_prepared_from(prepared.kind, operation, parts)
                &&& prepared.estimated_bytes == stored_bytes(payloads_of(prepared.kind))
            },
            Err(error) => exists|place: int| #[trigger]
                is_first_fault(parts, place) && parts[place].fault() == Some(error@),
        }
    }
}

/// Prepare an operation, given its parts.
///
/// # Errors
///
/// Returns an error when the operation has another version or a part of it cannot be prepared.
pub fn prepare_operation_parts(operation: ArchiveOperation, parts: &Vec<Part>) -> (result: Result<
    PreparedArchiveOperation,
    String,
>)
    requires
        exists|files: Seq<Result<Vec<u8>, String>>|
            files.len() == paths_of(operation).len() && #[trigger] are_parts_of(
                parts@,
                operation,
                files,
            ),
    ensures
        is_preparation(result, operation, parts@),
{
    let ghost files = choose|files: Seq<Result<Vec<u8>, String>>|
        files.len() == paths_of(operation).len() && #[trigger] are_parts_of(
            parts@,
            operation,
            files,
        );
    let version: u32 = operation.schema_version();
    if version != INGEST_SCHEMA_VERSION {
        return Err(
            join4(
                "unsupported ingest schema version ",
                decimal(version as u64).as_str(),
                "; expected ",
                decimal(INGEST_SCHEMA_VERSION as u64).as_str(),
            ),
        );
    }
    let mut payloads = match prepare_parts(parts) {
        Ok(payloads) => payloads,
        Err(error) => {
            return Err(error);
        },
    };
    let ghost all = payloads@;
    proof {
        assert forall|i: int| 0 <= i < all.len() implies (#[trigger] all[i]).stored@.len()
            <= MAX_FRAME_BYTES by {
            assert(parts@[i].is_preparable());
            lemma_stored_length(all[i], parts@[i].contents()->Ok_0);
        }
        assert forall|i: int| 0 <= i < all.len() implies is_from(#[trigger] all[i], parts@[i]) by {
            assert(parts@[i].is_preparable());
        }
        lemma_file_parts(parts@, operation, files);
    }
    let estimated_bytes = total(&payloads);
    let kind = match operation {
        ArchiveOperation::BeginCall { session, call, captured_at_ms, .. } => {
            let before = payloads.remove(0);
            let after = payloads.remove(0);
            assert(all =~= seq![before, after]);
            PreparedOperationKind::BeginCall { session, call, before, after, captured_at_ms }
        },
        ArchiveOperation::ResultBefore {
            session,
            source_call_id,
            full_output_path,
            captured_at_ms,
            ..
        } => {
            let result = payloads.remove(0);
            let source_output = match full_output_path {
                Some(_) => {
                    let payload = payloads.remove(0);
                    assert(all =~= seq![result, payload]);
                    Some(stream_of(&parts[1], payload))
                },
                None => None,
            };
            assert(source_output is None ==> all =~= seq![result]);
            PreparedOperationKind::ResultBefore {
                session,
                source_call_id,
                result,
                source_output,
                captured_at_ms,
            }
        },
        ArchiveOperation::ResultText {
            session,
            source_call_id,
            source_completeness,
            captured_at_ms,
            ..
        } => {
            let text = payloads.remove(0);
            assert(all =~= seq![text]);
            PreparedOperationKind::ResultText {
                session,
                source_call_id,
                text,
                completeness: source_completeness,
                captured_at_ms,
            }
        },
        ArchiveOperation::StageResult {
            session,
            source_call_id,
            is_error,
            captured_at_ms,
            ..
        } => {
            let result = payloads.remove(0);
            assert(all =~= seq![result]);
            PreparedOperationKind::StageResult {
                session,
                source_call_id,
                result,
                is_error,
                captured_at_ms,
            }
        },
        ArchiveOperation::FinishCall {
            session,
            source_call_id,
            is_error,
            require_pre_result,
            finished_at_ms,
            ..
        } => {
            let result = payloads.remove(0);
            assert(all =~= seq![result]);
            PreparedOperationKind::FinishCall {
                session,
                source_call_id,
                result,
                is_error,
                require_pre_result,
                finished_at_ms,
            }
        },
        ArchiveOperation::UpdateFinalResult {
            session,
            source_call_id,
            is_error,
            finished_at_ms,
            ..
        } => {
            let result = payloads.remove(0);
            assert(all =~= seq![result]);
            PreparedOperationKind::UpdateFinalResult {
                session,
                source_call_id,
                result,
                is_error,
                finished_at_ms,
            }
        },
        ArchiveOperation::CaptureStreams { session, source_call_id, captured_at_ms, .. } => {
            let stdout_before = stream_of(&parts[0], payloads.remove(0));
            let stderr_before = stream_of(&parts[1], payloads.remove(0));
            let stdout_after = stream_of(&parts[2], payloads.remove(0));
            let stderr_after = stream_of(&parts[3], payloads.remove(0));
            assert(all =~= seq![
                stdout_before.payload,
                stderr_before.payload,
                stdout_after.payload,
                stderr_after.payload,
            ]);
            PreparedOperationKind::CaptureStreams {
                session,
                source_call_id,
                captured_at_ms,
                stdout_before,
                stderr_before,
                stdout_after,
                stderr_after,
            }
        },
        ArchiveOperation::CapturePassthroughStreams {
            session,
            source_call_id,
            captured_at_ms,
            ..
        } => {
            let stdout_before = stream_of(&parts[0], payloads.remove(0));
            let stdout_after = stream_of(&parts[1], payloads.remove(0));
            let stderr_before = stream_of(&parts[2], payloads.remove(0));
            let stderr_after = stream_of(&parts[3], payloads.remove(0));
            proof {
                lemma_four(all);
                assert(seq![all[0], all[2], all[1], all[3]] =~= seq![
                    stdout_before.payload,
                    stderr_before.payload,
                    stdout_after.payload,
                    stderr_after.payload,
                ]);
            }
            PreparedOperationKind::CaptureStreams {
                session,
                source_call_id,
                captured_at_ms,
                stdout_before,
                stderr_before,
                stdout_after,
                stderr_after,
            }
        },
        ArchiveOperation::PruneBefore { timestamp_ms, .. } => {
            assert(all =~= Seq::empty());
            PreparedOperationKind::PruneBefore { timestamp_ms }
        },
    };
    Ok(PreparedArchiveOperation { estimated_bytes, kind })
}

/// Where the parts of an operation are files that could be read.
proof fn lemma_file_parts(
    parts: Seq<Part>,
    operation: ArchiveOperation,
    files: Seq<Result<Vec<u8>, String>>,
)
    requires
        files.len() == paths_of(operation).len(),
        are_parts_of(parts, operation, files),
        forall|i: int| 0 <= i < parts.len() ==> (#[trigger] parts[i]).is_preparable(),
    ensures
        operation is BeginCall ==> parts.len() == 2,
        operation is ResultBefore ==> parts.len() == 1 + files.len() && (files.len() == 1
            ==> parts[1] is Plain),
        operation is ResultText || operation is StageResult || operation is FinishCall
            || operation is UpdateFinalResult ==> parts.len() == 1,
        operation is CaptureStreams || operation is CapturePassthroughStreams ==> parts.len() == 4
            && parts[0] is Plain && parts[1] is Plain && parts[2] is Plain && parts[3] is Plain,
        operation is PruneBefore ==> parts.len() == 0,
{
    let offset = json_of(operation).len() as int;
    if !(operation is ResultText) {
        assert forall|i: int| 0 <= i < files.len() implies (#[trigger] parts[offset + i]) is Plain by {
            assert(is_file_part(parts[offset + i], files[i]));
            assert(parts[offset + i].is_preparable());
        }
        if operation is ResultBefore && files.len() == 1 {
            assert(parts[offset + 0] is Plain);
        }
        if operation is CaptureStreams || operation is CapturePassthroughStreams {
            assert(parts[offset + 0] is Plain);
            assert(parts[offset + 1] is Plain);
            assert(parts[offset + 2] is Plain);
            assert(parts[offset + 3] is Plain);
        }
    }
}

/// Prepare an operation, given what was read of its files.
///
/// # Errors
///
/// Returns an error when the operation has another version, or when the first of its parts that
/// cannot be prepared is unreadable, no JSON, too long or cannot be compressed.
pub fn prepare_operation(operation: ArchiveOperation, files: &Vec<Result<Vec<u8>, String>>) -> (result:
    Result<PreparedArchiveOperation, String>)
    requires
        files@.len() == paths_of(operation).len(),
    ensures
        exists|parts: Seq<Part>| #[trigger]
            are_parts_of(parts, operation, files@) && is_preparation(result, operation, parts),
{
    let parts = operation_parts(&operation, files);
    prepare_operation_parts(operation, &parts)
}

} // verus!
