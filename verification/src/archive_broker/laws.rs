//! What holds between the clients of an archive and its broker.
use vstd::prelude::*;

use super::batch::{BatchState, WorkTicket, hello_fault};
use super::budget::bounded_sum;
use super::errors::{redacted, replaced, safe_error, stands, tells};
use super::sequences::{SequenceModel, recorded, regresses, without};
use crate::archive_client::{FirstAttempt, follows_first, hello_ack_fault, is_checked, is_execution};
use crate::archive_protocol::{
    ArchiveAck, ArchiveOperation, BrokerEnvelope, BrokerHello, BrokerHelloAck, ReplayPolicy,
    SourceModel, envelope_fault,
};
use crate::archive_runtime::{
    EntryFacts, archive_file_fault, archive_identity, permissions, runtime_base_fault,
    runtime_entry_fault, runtime_file,
};
use crate::bytes::lit;
use crate::digest::{hex_text, sha256};
use crate::text::is_control;

verus! {

/// The operations of a call come in this order: it begins, its streams are captured, its result is
/// stored, then the text of it, then a result is staged, and at last the call is finished.
pub proof fn lemma_order_of_operations(left: ArchiveOperation, right: ArchiveOperation)
    ensures
        left is BeginCall && !(right is BeginCall) && !(right is PruneBefore) ==> left.place()
            < right.place(),
        (left is CaptureStreams || left is CapturePassthroughStreams) && (right is ResultBefore
            || right is ResultText || right is StageResult || right is FinishCall
            || right is UpdateFinalResult) ==> left.place() < right.place(),
        left is ResultBefore && (right is ResultText || right is StageResult || right is FinishCall
            || right is UpdateFinalResult) ==> left.place() < right.place(),
        left is ResultText && (right is StageResult || right is FinishCall
            || right is UpdateFinalResult) ==> left.place() < right.place(),
        left is StageResult && (right is FinishCall || right is UpdateFinalResult) ==> left.place()
            < right.place(),
        left is FinishCall && right is UpdateFinalResult ==> left.place() < right.place(),
        left.is_last() <==> left is FinishCall || left is UpdateFinalResult,
{
}

/// Operations of one call have one key, made of the agent, the account, the session and the call.
/// All four are kept out of what is told about the operation.
pub proof fn lemma_operations_of_a_call_share_a_key(
    left: ArchiveOperation,
    right: ArchiveOperation,
    source: SourceModel,
)
    requires
        left.source() == Some(source),
        right.source() == Some(source),
    ensures
        left.key() == right.key(),
        left.key() == hex_text(
            sha256(
                vstd::utf8::encode_utf8(
                    source.agent + "\u{1f}"@ + source.account + "\u{1f}"@ + source.session
                        + "\u{1f}"@ + source.call,
                ),
            ),
        ),
        left.secrets().contains(source.agent),
        left.secrets().contains(source.account),
        left.secrets().contains(source.session),
        left.secrets().contains(source.call),
        !(left is PruneBefore),
{
    let secrets = left.secrets();
    assert(secrets[0] == source.agent && secrets[1] == source.account && secrets[2]
        == source.session && secrets[3] == source.call);
}

/// Which call an operation belongs to: the one it names.
pub proof fn lemma_operation_names_its_call(operation: ArchiveOperation)
    ensures
        match operation {
            ArchiveOperation::BeginCall { session, call, .. } => operation.source() == Some(
                SourceModel {
                    agent: session.agent@,
                    account: session.account@,
                    session: session.source_session_id@,
                    call: call.source_call_id@,
                },
            ),
            ArchiveOperation::CaptureStreams { session, source_call_id, .. } => operation.source()
                == Some(
                SourceModel {
                    agent: session.agent@,
                    account: session.account@,
                    session: session.source_session_id@,
                    call: source_call_id@,
                },
            ),
            ArchiveOperation::ResultBefore { session, source_call_id, .. } => operation.source()
                == Some(
                SourceModel {
                    agent: session.agent@,
                    account: session.account@,
                    session: session.source_session_id@,
                    call: source_call_id@,
                },
            ),
            ArchiveOperation::FinishCall { session, source_call_id, .. } => operation.source()
                == Some(
                SourceModel {
                    agent: session.agent@,
                    account: session.account@,
                    session: session.source_session_id@,
                    call: source_call_id@,
                },
            ),
            ArchiveOperation::PruneBefore { .. } => operation.source() is None,
            _ => operation.source() is Some,
        },
{
}

/// Everything but the removal of old calls may be sent again after a lost connection. Of a removal
/// nothing is known then.
pub proof fn lemma_only_removal_is_not_repeated(
    operation: ArchiveOperation,
    outcome: Result<ArchiveAck, String>,
    next: FirstAttempt,
)
    requires
        follows_first(outcome, operation.policy(), next),
    ensures
        outcome is Ok ==> next == FirstAttempt::Done(outcome),
        outcome is Err && !(operation is PruneBefore) ==> next is Reconnect,
        outcome is Err && operation is PruneBefore ==> next is Done && next->Done_0 is Err,
        operation.policy() == ReplayPolicy::UnknownOnDisconnect <==> operation is PruneBefore,
{
}

/// An answer counts for the request that it names, and gives the reference or the error in it.
pub proof fn lemma_answers_belong_to_requests(
    ack: ArchiveAck,
    request_id: u64,
    checked: Result<ArchiveAck, String>,
    result: Result<Option<String>, String>,
)
    requires
        is_checked(ack, request_id, checked),
        is_execution(ack, result),
    ensures
        checked is Ok <==> ack.request_id == request_id,
        checked matches Ok(given) ==> given == ack,
        result is Ok <==> ack.ok,
        result matches Ok(reference) ==> reference == ack.archive_ref,
        !ack.ok && ack.error is Some ==> (result matches Err(message) && message@
            == ack.error->Some_0@),
{
}

/// An envelope is accepted where its schema and its version are those of this program, its key and
/// its place are those of its operation, and its deadline is at most half a minute away.
pub proof fn lemma_accepted_envelopes(envelope: BrokerEnvelope)
    ensures
        envelope_fault(envelope) is None <==> {
            &&& envelope.schema@ == "yarp.archive-broker.v1"@
            &&& envelope.operation.version() == 1
            &&& envelope.source_key@ == envelope.operation.key()
            &&& envelope.sequence == envelope.operation.place()
            &&& 1 <= envelope.deadline_ms <= 30_000
        },
{
}

/// A client and a broker work together where they are of one schema, one version and one archive.
pub proof fn lemma_accepted_handshakes(
    hello: BrokerHello,
    ack: BrokerHelloAck,
    binary_version: Seq<char>,
    archive_id: Seq<char>,
)
    ensures
        hello_fault(hello, binary_version, archive_id) is None <==> {
            &&& hello.schema@ == "yarp.archive-broker.v1"@
            &&& hello.binary_version@ == binary_version
            &&& hello.archive_id@ == archive_id
        },
        hello_ack_fault(ack, binary_version, archive_id) is None <==> {
            &&& ack.ok
            &&& ack.schema@ == "yarp.archive-broker.v1"@
            &&& ack.binary_version@ == binary_version
            &&& ack.archive_id@ == archive_id
        },
{
}

/// The permissions of an entry end with none for the group and none for others.
pub open spec fn is_private(mode: u32) -> bool {
    mode % 64 == 0
}

/// Runtime files are used where they are no links, are of the right type, belong to the user, and
/// are private. An archive that is only read must be a private regular file.
pub proof fn lemma_private_entries_are_used(
    path: Seq<char>,
    facts: EntryFacts,
    owner: u32,
    socket: bool,
)
    ensures
        runtime_base_fault(path, facts, owner) is None <==> {
            &&& facts.is_directory
            &&& !facts.is_symlink
            &&& facts.owner == owner
            &&& is_private(facts.mode)
        },
        runtime_entry_fault(path, facts, owner, socket) is None <==> {
            &&& !facts.is_symlink
            &&& socket ==> facts.is_socket
            &&& !socket ==> facts.is_regular
            &&& facts.owner == owner
            &&& is_private(facts.mode)
        },
        archive_file_fault(path, facts) is None <==> {
            &&& !facts.is_symlink
            &&& facts.is_regular
            &&& is_private(facts.mode)
        },
        permissions(facts.mode) == facts.mode % 512,
{
    let mode = facts.mode;
    assert(mode & 0o077 == 0 <==> mode % 64 == 0) by (bit_vector);
    assert((mode & 0o777) & 0o077 == 0 <==> mode % 64 == 0) by (bit_vector);
    assert(mode & 0o777 == mode % 512) by (bit_vector);
}

/// The files of a broker stand in its directory, under the name of its archive: the first half of
/// the digest of its path.
pub proof fn lemma_names_of_runtime_files(directory: Seq<u8>, path: Seq<u8>, suffix: Seq<u8>)
    ensures
        archive_identity(path) == hex_text(sha256(path).take(16)),
        runtime_file(directory, path, suffix) == directory + lit("/archive-")
            + vstd::utf8::encode_utf8(hex_text(sha256(path).take(16))) + suffix,
{
}

/// An empty batch takes any request. A batch with some takes one more where its number stays within
/// the limit and the bytes of all stay within 8 MiB.
pub proof fn lemma_batches_take_what_fits(batch: BatchState, bytes: u64, request_limit: usize)
    ensures
        batch.requests == 0 ==> !batch.is_full_for(bytes, request_limit),
        batch.requests > 0 ==> (!batch.is_full_for(bytes, request_limit) <==> batch.requests
            < request_limit && batch.bytes + bytes <= 8_388_608),
        batch.bytes + bytes <= u64::MAX ==> bounded_sum(batch.bytes, bytes) == batch.bytes + bytes,
{
}

/// A request that was refused is answered under its own number, without a reference.
pub proof fn lemma_refusals_name_the_request(ticket: WorkTicket, ack: ArchiveAck, error: Seq<char>)
    requires
        ticket.is_refused(ack, error),
    ensures
        !ack.ok,
        ack.request_id == ticket.request_id,
        ack.archive_ref is None,
        ack.error is Some,
        ack.error->Some_0@ == error,
{
}

/// Once an operation of a call was applied, an earlier one is refused, and the same one or a later
/// one is not. A call that has ended refuses nothing.
pub proof fn lemma_calls_only_advance(
    entries: Seq<SequenceModel>,
    key: Seq<char>,
    sequence: u8,
    other: u8,
)
    ensures
        other < sequence ==> regresses(recorded(entries, key, sequence), key, other),
        other >= sequence ==> !regresses(recorded(entries, key, sequence), key, other),
        !regresses(without(entries, key), key, other),
        !regresses(Seq::empty(), key, other),
{
    super::sequences::lemma_sequence_guards_its_call(entries, key, sequence, other);
}

proof fn lemma_nothing_to_replace(text: Seq<char>, value: Seq<char>)
    requires
        !tells(text, value),
    ensures
        replaced(text, value) == text,
    decreases text.len(),
{
    if value.len() == 0 || text.len() < value.len() {
    } else {
        assert(text.take(value.len() as int) =~= text.subrange(0, value.len() as int));
        assert(!stands(text, value, 0));
        let rest = text.drop_first();
        if tells(rest, value) {
            let at = choose|at: int| #[trigger] stands(rest, value, at);
            assert(rest.subrange(at, at + value.len()) =~= text.subrange(
                at + 1,
                at + 1 + value.len(),
            ));
            assert(stands(text, value, at + 1));
        }
        lemma_nothing_to_replace(rest, value);
        assert(seq![text[0]] + rest =~= text);
    }
}

proof fn lemma_nothing_to_redact(text: Seq<char>, values: Seq<Seq<char>>, count: nat)
    requires
        count <= values.len(),
        forall|i: int| 0 <= i < values.len() ==> !tells(text, #[trigger] values[i]),
    ensures
        redacted(text, values, count) == text,
    decreases count,
{
    if count > 0 {
        lemma_nothing_to_redact(text, values, (count - 1) as nat);
        lemma_nothing_to_replace(text, values[count - 1]);
    }
}

/// An error of one line that gives nothing away is told as it is, up to 1024 characters.
pub proof fn lemma_harmless_errors_are_told(error: Seq<char>, redactions: Seq<Seq<char>>)
    requires
        forall|i: int| 0 <= i < redactions.len() ==> !tells(error, #[trigger] redactions[i]),
        forall|i: int| 0 <= i < error.len() ==> !is_control(#[trigger] error[i]),
    ensures
        error.len() <= 1_024 ==> safe_error(error, redactions) == error,
        error.len() > 1_024 ==> safe_error(error, redactions) == error.take(1_024),
{
    lemma_nothing_to_redact(error, redactions, redactions.len());
    let line = error.map_values(|c: char| super::errors::visible(c));
    assert(line =~= error);
}

} // verus!
