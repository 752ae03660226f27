//! How the broker starts alone and how it meets its clients.
use vstd::prelude::*;

use super::batch::{GLOBAL_REQUEST_LIMIT, WorkTicket, hello_fault, validate_hello};
use crate::archive_client::hello_ack_fault;
use crate::archive_protocol::{
    ArchiveAck, BROKER_SCHEMA, BrokerEnvelope, BrokerHello, BrokerHelloAck, envelope_fault,
};
use crate::text::{reports, texts};

verus! {

/// Check that no other broker serves the archive. A broker that a client started holds the startup
/// lock through that client, which has already looked for a listener.
///
/// # Errors
///
/// Returns an error when another broker lives or listens.
pub fn check_alone(no_live_broker: bool, activated: bool, socket_answers: bool) -> (result: Result<
    (),
    String,
>)
    ensures
        reports(
            result,
            if !no_live_broker || (!activated && socket_answers) {
                Some("an archive broker is already running"@)
            } else {
                None
            },
        ),
{
    if !no_live_broker || (!activated && socket_answers) {
        return Err("an archive broker is already running".to_owned());
    }
    Ok(())
}

/// Whether one more client is served.
pub fn admits_client(active_clients: usize) -> (admitted: bool)
    ensures
        admitted == (active_clients < GLOBAL_REQUEST_LIMIT),
{
    active_clients < GLOBAL_REQUEST_LIMIT
}

/// Check that a client belongs to the user of the broker.
///
/// # Errors
///
/// Returns an error when the client belongs to another user.
pub fn check_peer(peer: u32, user: u32) -> (result: Result<(), String>)
    ensures
        reports(
            result,
            if peer != user {
                Some("archive broker rejected a peer owned by another user"@)
            } else {
                None
            },
        ),
{
    if peer != user {
        return Err("archive broker rejected a peer owned by another user".to_owned());
    }
    Ok(())
}

/// The answer to the first message of a client.
pub open spec fn is_answer(
    ack: BrokerHelloAck,
    hello: BrokerHello,
    binary_version: Seq<char>,
    archive_id: Seq<char>,
) -> bool {
    let fault = hello_fault(hello, binary_version, archive_id);
    &&& ack.schema@ == BROKER_SCHEMA@
    &&& ack.binary_version@ == binary_version
    &&& ack.archive_id@ == archive_id
    &&& ack.ok == (fault is None)
    &&& match (ack.error, fault) {
        (Some(error), Some(reason)) => error@ == reason,
        (None, None) => true,
        _ => false,
    }
}

/// Answer the first message of a client.
pub fn answer_hello(hello: &BrokerHello, binary_version: &str, archive_id: &str) -> (ack:
    BrokerHelloAck)
    ensures
        is_answer(ack, *hello, binary_version@, archive_id@),
{
    let error: Option<String> = match validate_hello(hello, binary_version, archive_id) {
        Ok(()) => None,
        Err(reason) => Some(reason),
    };
    BrokerHelloAck {
        schema: BROKER_SCHEMA.to_owned(),
        binary_version: binary_version.to_owned(),
        archive_id: archive_id.to_owned(),
        ok: error.is_none(),
        error,
    }
}

/// Take a request: one whose envelope does not belong to its operation is refused at once.
///
/// # Errors
///
/// Returns the answer that refuses the request.
pub fn receive(envelope: &BrokerEnvelope) -> (result: Result<WorkTicket, ArchiveAck>)
    ensures
        match envelope_fault(*envelope) {
            None => result matches Ok(ticket) && ticket.source_key@ == envelope.source_key@
                && ticket.sequence == envelope.sequence && texts(ticket.redactions@)
                == envelope.operation.secrets() && ticket.ends_source_sequence
                == envelope.operation.is_last() && ticket.request_id
                == envelope.operation.number(),
            Some(fault) => result matches Err(ack) && ack.request_id == envelope.operation.number()
                && !ack.ok && ack.archive_ref is None && (ack.error matches Some(error) && error@
                == fault),
        },
{
    match envelope.validate() {
        Ok(()) => Ok(WorkTicket::new(&envelope.operation)),
        Err(error) => Err(ArchiveAck::failure(envelope.operation.request_id(), error)),
    }
}

/// What came of handing a request to the writer.
#[derive(Clone, Copy, Debug, PartialEq, Eq, Structural)]
pub enum Handover {
    Taken,
    Full,
    Closed,
}

/// Whether a request is handed over once more: a full queue is tried again until the deadline.
///
/// # Errors
///
/// Returns an error when the deadline has passed or the writer has stopped.
pub fn handover_again(handover: Handover, expired: bool) -> (result: Result<bool, String>)
    ensures
        match handover {
            Handover::Taken => result == Ok::<bool, String>(false),
            Handover::Full => if expired {
                result matches Err(error) && error@ == "archive broker queue deadline expired"@
            } else {
                result == Ok::<bool, String>(true)
            },
            Handover::Closed => result matches Err(error) && error@
                == "archive broker stopped accepting work"@,
        },
{
    match handover {
        Handover::Taken => Ok(false),
        Handover::Full => {
            if expired {
                Err("archive broker queue deadline expired".to_owned())
            } else {
                Ok(true)
            }
        },
        Handover::Closed => Err("archive broker stopped accepting work".to_owned()),
    }
}

/// A client and a broker agree exactly when they have the same version and mean the same archive.
pub proof fn lemma_handshake_agrees(
    hello: BrokerHello,
    ack: BrokerHelloAck,
    client_version: Seq<char>,
    client_archive: Seq<char>,
    broker_version: Seq<char>,
    broker_archive: Seq<char>,
)
    requires
        hello.schema@ == BROKER_SCHEMA@,
        hello.binary_version@ == client_version,
        hello.archive_id@ == client_archive,
        is_answer(ack, hello, broker_version, broker_archive),
    ensures
        hello_ack_fault(ack, client_version, client_archive) is None <==> client_version
            == broker_version && client_archive == broker_archive,
{
}

} // verus!
