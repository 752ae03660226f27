//! The messages between archive clients and the archive broker.
use vstd::prelude::*;
use vstd::utf8::encode_utf8;

use crate::archive::model::{CallIdentity, SessionIdentity, SourceCompleteness};
use crate::digest::{digest_hex, hex_text, sha256, sha256_digest};
use crate::text::{decimal, digits, join2, join3, reports, same_text, texts};

verus! {

/// The version of the ingest protocol.
pub const INGEST_SCHEMA_VERSION: u32 = 1;

/// How long an acknowledgement may take at most, in milliseconds.
pub const ACK_DEADLINE_MS: u64 = 30_000;

/// The name of the broker protocol.
pub const BROKER_SCHEMA: &'static str = "yarp.archive-broker.v1";

/// A change of the archive. Structured values are kept as JSON text.
#[derive(Debug)]
pub enum ArchiveOperation {
    BeginCall {
        request_id: u64,
        schema_version: u32,
        session: SessionIdentity,
        call: CallIdentity,
        input_before: Vec<u8>,
        input_after: Vec<u8>,
        captured_at_ms: i64,
    },
    ResultBefore {
        request_id: u64,
        schema_version: u32,
        session: SessionIdentity,
        source_call_id: String,
        result: Vec<u8>,
        full_output_path: Option<String>,
        captured_at_ms: i64,
    },
    ResultText {
        request_id: u64,
        schema_version: u32,
        session: SessionIdentity,
        source_call_id: String,
        text: String,
        source_completeness: SourceCompleteness,
        captured_at_ms: i64,
    },
    StageResult {
        request_id: u64,
        schema_version: u32,
        session: SessionIdentity,
        source_call_id: String,
        result: Vec<u8>,
        is_error: bool,
        captured_at_ms: i64,
    },
    FinishCall {
        request_id: u64,
        schema_version: u32,
        session: SessionIdentity,
        source_call_id: String,
        result: Vec<u8>,
        is_error: bool,
        require_pre_result: bool,
        finished_at_ms: i64,
    },
    UpdateFinalResult {
        request_id: u64,
        schema_version: u32,
        session: SessionIdentity,
        source_call_id: String,
        result: Vec<u8>,
        is_error: bool,
        finished_at_ms: i64,
    },
    CaptureStreams {
        request_id: u64,
        schema_version: u32,
        session: SessionIdentity,
        source_call_id: String,
        captured_at_ms: i64,
        stdout_before_path: String,
        stderr_before_path: String,
        stdout_after_path: String,
        stderr_after_path: String,
    },
    CapturePassthroughStreams {
        request_id: u64,
        schema_version: u32,
        session: SessionIdentity,
        source_call_id: String,
        captured_at_ms: i64,
        stdout_path: String,
        stderr_path: String,
    },
    PruneBefore { request_id: u64, schema_version: u32, timestamp_ms: i64 },
}

/// Whether an operation may be sent again after its acknowledgement was lost.
#[derive(Clone, Copy, Debug, PartialEq, Eq, Structural)]
pub enum ReplayPolicy {
    SafeReplay,
    UnknownOnDisconnect,
}

/// The call that an operation belongs to.
#[verifier::ext_equal]
pub struct SourceModel {
    pub agent: Seq<char>,
    pub account: Seq<char>,
    pub session: Seq<char>,
    pub call: Seq<char>,
}

impl SourceModel {
    /// The call of a session.
    pub open spec fn of(session: SessionIdentity, call: Seq<char>) -> SourceModel {
        SourceModel {
            agent: session.agent@,
            account: session.account@,
            session: session.source_session_id@,
            call,
        }
    }

    /// The call as one text.
    pub open spec fn identity(self) -> Seq<char> {
        self.agent + "\u{1f}"@ + self.account + "\u{1f}"@ + self.session + "\u{1f}"@ + self.call
    }
}

impl ArchiveOperation {
    /// The number that the acknowledgement repeats.
    pub open spec fn number(self) -> u64 {
        match self {
            ArchiveOperation::BeginCall { request_id, .. } => request_id,
            ArchiveOperation::ResultBefore { request_id, .. } => request_id,
            ArchiveOperation::ResultText { request_id, .. } => request_id,
            ArchiveOperation::StageResult { request_id, .. } => request_id,
            ArchiveOperation::FinishCall { request_id, .. } => request_id,
            ArchiveOperation::UpdateFinalResult { request_id, .. } => request_id,
            ArchiveOperation::CaptureStreams { request_id, .. } => request_id,
            ArchiveOperation::CapturePassthroughStreams { request_id, .. } => request_id,
            ArchiveOperation::PruneBefore { request_id, .. } => request_id,
        }
    }

    /// The version of the protocol that the operation belongs to.
    pub open spec fn version(self) -> u32 {
        match self {
            ArchiveOperation::BeginCall { schema_version, .. } => schema_version,
            ArchiveOperation::ResultBefore { schema_version, .. } => schema_version,
            ArchiveOperation::ResultText { schema_version, .. } => schema_version,
            ArchiveOperation::StageResult { schema_version, .. } => schema_version,
            ArchiveOperation::FinishCall { schema_version, .. } => schema_version,
            ArchiveOperation::UpdateFinalResult { schema_version, .. } => schema_version,
            ArchiveOperation::CaptureStreams { schema_version, .. } => schema_version,
            ArchiveOperation::CapturePassthroughStreams { schema_version, .. } => schema_version,
            ArchiveOperation::PruneBefore { schema_version, .. } => schema_version,
        }
    }

    /// The call that the operation belongs to; maintenance belongs to none.
    pub open spec fn source(self) -> Option<SourceModel> {
        match self {
            ArchiveOperation::BeginCall { session, call, .. } => Some(
                SourceModel::of(session, call.source_call_id@),
            ),
            ArchiveOperation::ResultBefore { session, source_call_id, .. } => Some(
                SourceModel::of(session, source_call_id@),
            ),
            ArchiveOperation::ResultText { session, source_call_id, .. } => Some(
                SourceModel::of(session, source_call_id@),
            ),
            ArchiveOperation::StageResult { session, source_call_id, .. } => Some(
                SourceModel::of(session, source_call_id@),
            ),
            ArchiveOperation::FinishCall { session, source_call_id, .. } => Some(
                SourceModel::of(session, source_call_id@),
            ),
            ArchiveOperation::UpdateFinalResult { session, source_call_id, .. } => Some(
                SourceModel::of(session, source_call_id@),
            ),
            ArchiveOperation::CaptureStreams { session, source_call_id, .. } => Some(
                SourceModel::of(session, source_call_id@),
            ),
            ArchiveOperation::CapturePassthroughStreams { session, source_call_id, .. } => Some(
                SourceModel::of(session, source_call_id@),
            ),
            ArchiveOperation::PruneBefore { .. } => None,
        }
    }

    /// The key that orders operations of one call: a digest, which does not tell the call.
    pub open spec fn key(self) -> Seq<char> {
        let identity = match self.source() {
            Some(source) => source.identity(),
            None => "maintenance\u{1f}prune"@,
        };
        hex_text(sha256(encode_utf8(identity)))
    }

    /// The texts that must not appear in what is said about the operation.
    pub open spec fn secrets(self) -> Seq<Seq<char>> {
        match self.source() {
            Some(source) => seq![source.agent, source.account, source.session, source.call],
            None => Seq::empty(),
        }
    }

    /// The place of the operation among those of its call.
    pub open spec fn place(self) -> u8 {
        match self {
            ArchiveOperation::BeginCall { .. } | ArchiveOperation::PruneBefore { .. } => 0,
            ArchiveOperation::CaptureStreams { .. }
            | ArchiveOperation::CapturePassthroughStreams { .. } => 1,
            ArchiveOperation::ResultBefore { .. } => 2,
            ArchiveOperation::ResultText { .. } => 3,
            ArchiveOperation::StageResult { .. } => 4,
            ArchiveOperation::FinishCall { .. } => 5,
            ArchiveOperation::UpdateFinalResult { .. } => 6,
        }
    }

    /// Whether the operation may be sent again after its acknowledgement was lost.
    pub open spec fn policy(self) -> ReplayPolicy {
        if self is PruneBefore {
            ReplayPolicy::UnknownOnDisconnect
        } else {
            ReplayPolicy::SafeReplay
        }
    }

    /// No operation of the call comes later.
    pub open spec fn is_last(self) -> bool {
        self is FinishCall || self is UpdateFinalResult
    }

    /// The number that the acknowledgement repeats.
    pub fn request_id(&self) -> (number: u64)
        ensures
            number == self.number(),
    {
        match self {
            ArchiveOperation::BeginCall { request_id, .. }
            | ArchiveOperation::ResultBefore { request_id, .. }
            | ArchiveOperation::ResultText { request_id, .. }
            | ArchiveOperation::StageResult { request_id, .. }
            | ArchiveOperation::FinishCall { request_id, .. }
            | ArchiveOperation::UpdateFinalResult { request_id, .. }
            | ArchiveOperation::CaptureStreams { request_id, .. }
            | ArchiveOperation::CapturePassthroughStreams { request_id, .. }
            | ArchiveOperation::PruneBefore { request_id, .. } => *request_id,
        }
    }

    /// The version of the protocol that the operation belongs to.
    pub fn schema_version(&self) -> (version: u32)
        ensures
            version == self.version(),
    {
        match self {
            ArchiveOperation::BeginCall { schema_version, .. }
            | ArchiveOperation::ResultBefore { schema_version, .. }
            | ArchiveOperation::ResultText { schema_version, .. }
            | ArchiveOperation::StageResult { schema_version, .. }
            | ArchiveOperation::FinishCall { schema_version, .. }
            | ArchiveOperation::UpdateFinalResult { schema_version, .. }
            | ArchiveOperation::CaptureStreams { schema_version, .. }
            | ArchiveOperation::CapturePassthroughStreams { schema_version, .. }
            | ArchiveOperation::PruneBefore { schema_version, .. } => *schema_version,
        }
    }

    fn call_of(&self) -> (source: Option<(&SessionIdentity, &str)>)
        ensures
            match self.source() {
                Some(model) => source matches Some((session, call)) && SourceModel::of(
                    *session,
                    call@,
                ) == model,
                None => source is None,
            },
    {
        match self {
            ArchiveOperation::BeginCall { session, call, .. } => Some(
                (session, call.source_call_id.as_str()),
            ),
            ArchiveOperation::ResultBefore { session, source_call_id, .. }
            | ArchiveOperation::ResultText { session, source_call_id, .. }
            | ArchiveOperation::StageResult { session, source_call_id, .. }
            | ArchiveOperation::FinishCall { session, source_call_id, .. }
            | ArchiveOperation::UpdateFinalResult { session, source_call_id, .. }
            | ArchiveOperation::CaptureStreams { session, source_call_id, .. }
            | ArchiveOperation::CapturePassthroughStreams { session, source_call_id, .. } => Some(
                (session, source_call_id.as_str()),
            ),
            ArchiveOperation::PruneBefore { .. } => None,
        }
    }

    /// The key that orders operations of one call.
    pub fn source_key(&self) -> (key: String)
        ensures
            key@ == self.key(),
    {
        let identity = match self.call_of() {
            Some((session, call)) => {
                let mut text = session.agent.clone();
                text.append("\u{1f}");
                text.append(session.account.as_str());
                text.append("\u{1f}");
                text.append(session.source_session_id.as_str());
                text.append("\u{1f}");
                text.append(call);
                text
            },
            None => "maintenance\u{1f}prune".to_owned(),
        };
        digest_hex(&sha256_digest(identity.as_str().as_bytes()))
    }

    /// The texts that must not appear in what is said about the operation.
    pub fn redactions(&self) -> (secrets: Vec<String>)
        ensures
            texts(secrets@) == self.secrets(),
    {
        let mut secrets: Vec<String> = Vec::new();
        if let Some((session, call)) = self.call_of() {
            secrets.push(session.agent.clone());
            secrets.push(session.account.clone());
            secrets.push(session.source_session_id.clone());
            secrets.push(call.to_owned());
        }
        assert(texts(secrets@) =~= self.secrets());
        secrets
    }

    /// Whether the operation may be sent again after its acknowledgement was lost.
    pub fn replay_policy(&self) -> (policy: ReplayPolicy)
        ensures
            policy == self.policy(),
    {
        match self {
            ArchiveOperation::PruneBefore { .. } => ReplayPolicy::UnknownOnDisconnect,
            _ => ReplayPolicy::SafeReplay,
        }
    }

    /// Whether no operation of the call comes later.
    pub fn ends_source_sequence(&self) -> (last: bool)
        ensures
            last == self.is_last(),
    {
        match self {
            ArchiveOperation::FinishCall { .. } | ArchiveOperation::UpdateFinalResult { .. } => true,
            _ => false,
        }
    }

    /// The place of the operation among those of its call.
    pub fn sequence(&self) -> (place: u8)
        ensures
            place == self.place(),
    {
        match self {
            ArchiveOperation::BeginCall { .. } | ArchiveOperation::PruneBefore { .. } => 0,
            ArchiveOperation::CaptureStreams { .. }
            | ArchiveOperation::CapturePassthroughStreams { .. } => 1,
            ArchiveOperation::ResultBefore { .. } => 2,
            ArchiveOperation::ResultText { .. } => 3,
            ArchiveOperation::StageResult { .. } => 4,
            ArchiveOperation::FinishCall { .. } => 5,
            ArchiveOperation::UpdateFinalResult { .. } => 6,
        }
    }
}

/// The first message of a client.
#[derive(Debug)]
pub struct BrokerHello {
    pub schema: String,
    pub binary_version: String,
    pub archive_id: String,
}

/// The answer to the first message of a client.
#[derive(Debug)]
pub struct BrokerHelloAck {
    pub schema: String,
    pub binary_version: String,
    pub archive_id: String,
    pub ok: bool,
    pub error: Option<String>,
}

/// An operation with what the broker routes it by.
#[derive(Debug)]
pub struct BrokerEnvelope {
    pub schema: String,
    pub source_key: String,
    pub sequence: u8,
    pub deadline_ms: u64,
    pub operation: ArchiveOperation,
}

/// What is wrong with an envelope.
pub open spec fn envelope_fault(envelope: BrokerEnvelope) -> Option<Seq<char>> {
    if envelope.schema@ != BROKER_SCHEMA@ {
        Some("unsupported broker schema"@)
    } else if envelope.operation.version() != INGEST_SCHEMA_VERSION {
        Some("unsupported ingest schema version "@ + digits(envelope.operation.version() as nat))
    } else if envelope.source_key@ != envelope.operation.key() {
        Some("broker source key does not match operation"@)
    } else if envelope.sequence != envelope.operation.place() {
        Some("broker sequence does not match operation"@)
    } else if envelope.deadline_ms == 0 || envelope.deadline_ms > ACK_DEADLINE_MS {
        Some("invalid broker deadline "@ + digits(envelope.deadline_ms as nat) + " ms"@)
    } else {
        None
    }
}

impl BrokerEnvelope {
    /// Put an operation into an envelope.
    pub fn new(operation: ArchiveOperation, deadline_ms: u64) -> (envelope: BrokerEnvelope)
        ensures
            envelope.operation == operation,
            envelope.deadline_ms == deadline_ms,
            envelope.schema@ == BROKER_SCHEMA@,
            envelope.source_key@ == operation.key(),
            envelope.sequence == operation.place(),
            operation.version() == INGEST_SCHEMA_VERSION && 0 < deadline_ms <= ACK_DEADLINE_MS ==>
                envelope_fault(envelope) is None,
    {
        BrokerEnvelope {
            schema: BROKER_SCHEMA.to_owned(),
            source_key: operation.source_key(),
            sequence: operation.sequence(),
            deadline_ms,
            operation,
        }
    }

    /// Check that an envelope belongs to its operation.
    ///
    /// # Errors
    ///
    /// Returns an error when the schema or a version is another one, or when a routing field does
    /// not follow from the operation.
    pub fn validate(&self) -> (result: Result<(), String>)
        ensures
            reports(result, envelope_fault(*self)),
    {
        if !same_text(self.schema.as_str(), BROKER_SCHEMA) {
            return Err("unsupported broker schema".to_owned());
        }
        if self.operation.schema_version() != INGEST_SCHEMA_VERSION {
            return Err(
                join2(
                    "unsupported ingest schema version ",
                    decimal(self.operation.schema_version() as u64).as_str(),
                ),
            );
        }
        if !same_text(self.source_key.as_str(), self.operation.source_key().as_str()) {
            return Err("broker source key does not match operation".to_owned());
        }
        if self.sequence != self.operation.sequence() {
            return Err("broker sequence does not match operation".to_owned());
        }
        if self.deadline_ms == 0 || self.deadline_ms > ACK_DEADLINE_MS {
            return Err(
                join3("invalid broker deadline ", decimal(self.deadline_ms).as_str(), " ms"),
            );
        }
        Ok(())
    }
}

/// The answer to an operation.
#[derive(Clone, Debug)]
pub struct ArchiveAck {
    pub request_id: u64,
    pub ok: bool,
    pub archive_ref: Option<String>,
    pub error: Option<String>,
}

impl ArchiveAck {
    /// The operation was applied.
    pub fn success(request_id: u64, archive_ref: Option<String>) -> (ack: ArchiveAck)
        ensures
            ack == (ArchiveAck { request_id, ok: true, archive_ref, error: None }),
    {
        ArchiveAck { request_id, ok: true, archive_ref, error: None }
    }

    /// The operation was refused.
    pub fn failure(request_id: u64, error: String) -> (ack: ArchiveAck)
        ensures
            ack == (ArchiveAck { request_id, ok: false, archive_ref: None, error: Some(error) }),
    {
        ArchiveAck { request_id, ok: false, archive_ref: None, error: Some(error) }
    }
}

/// Operations of different calls have different identities, unless one of the names holds the
/// separator: the identity tells the call.
pub proof fn lemma_identity_tells_the_call(left: SourceModel, right: SourceModel)
    requires
        left.identity() == right.identity(),
        is_plain(left),
        is_plain(right),
    ensures
        left == right,
{
    reveal_strlit("\u{1f}");
    let mark = "\u{1f}"@;
    assert(mark =~= seq!['\u{1f}']);
    let text = left.identity();
    let after_agent = text.skip(left.agent.len() + 1int);
    let after_account = after_agent.skip(left.account.len() + 1int);
    lemma_first_field(
        left.agent,
        left.account + mark + left.session + mark + left.call,
        right.agent,
        right.account + mark + right.session + mark + right.call,
        text,
    );
    lemma_first_field(
        left.account,
        left.session + mark + left.call,
        right.account,
        right.session + mark + right.call,
        after_agent,
    );
    lemma_first_field(left.session, left.call, right.session, right.call, after_account);
}

/// None of the names holds the separator.
pub open spec fn is_plain(source: SourceModel) -> bool {
    &&& !source.agent.contains('\u{1f}')
    &&& !source.account.contains('\u{1f}')
    &&& !source.session.contains('\u{1f}')
    &&& !source.call.contains('\u{1f}')
}

proof fn lemma_first_field(
    left: Seq<char>,
    left_rest: Seq<char>,
    right: Seq<char>,
    right_rest: Seq<char>,
    text: Seq<char>,
)
    requires
        text =~= left + seq!['\u{1f}'] + left_rest,
        text =~= right + seq!['\u{1f}'] + right_rest,
        !left.contains('\u{1f}'),
        !right.contains('\u{1f}'),
    ensures
        left == right,
        left_rest == right_rest,
        text.skip(left.len() + 1int) == left_rest,
{
    if left.len() < right.len() {
        assert(text[left.len() as int] == '\u{1f}');
        assert(right[left.len() as int] == '\u{1f}');
        assert(right.contains('\u{1f}'));
    } else if right.len() < left.len() {
        assert(text[right.len() as int] == '\u{1f}');
        assert(left[right.len() as int] == '\u{1f}');
        assert(left.contains('\u{1f}'));
    }
    assert forall|i: int| 0 <= i < left.len() implies left[i] == right[i] by {
        assert(text[i] == left[i]);
        assert(text[i] == right[i]);
    }
    assert(left =~= right);
    assert(text.skip(left.len() + 1int) =~= left_rest);
    assert(text.skip(left.len() + 1int) =~= right_rest);
}

} // verus!
