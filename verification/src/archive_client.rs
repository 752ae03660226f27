//! How a client reaches the archive broker, and what it makes of the answers.
use vstd::prelude::*;

use crate::archive_protocol::{
    ACK_DEADLINE_MS, ArchiveAck, ArchiveOperation, BROKER_SCHEMA, BrokerHello, BrokerHelloAck,
    INGEST_SCHEMA_VERSION, ReplayPolicy,
};
use crate::text::{decimal, digits, join2, join4, reports, same_text};

verus! {

/// How long a client waits for a broker to answer or to start, in milliseconds.
pub const STARTUP_TIMEOUT_MS: u64 = 5_000;

/// The pause between two attempts to reach a broker, in milliseconds.
pub const CONNECT_DELAY_MS: u64 = 20;

/// What a client reports when it does not know whether an archive was pruned.
pub const UNKNOWN_PRUNE_OUTCOME: &'static str =
    "archive prune acknowledgement was lost; the request may have committed and its exact outcome is unknown; inspect `yarp archive stats` or `yarp archive verify` before pruning again";

/// The first message of a client.
pub fn hello(binary_version: &str, archive_id: &str) -> (message: BrokerHello)
    ensures
        message.schema@ == BROKER_SCHEMA@,
        message.binary_version@ == binary_version@,
        message.archive_id@ == archive_id@,
{
    BrokerHello {
        schema: BROKER_SCHEMA.to_owned(),
        binary_version: binary_version.to_owned(),
        archive_id: archive_id.to_owned(),
    }
}

/// What is wrong with the answer of a broker to the first message.
pub open spec fn hello_ack_fault(
    ack: BrokerHelloAck,
    binary_version: Seq<char>,
    archive_id: Seq<char>,
) -> Option<Seq<char>> {
    if !ack.ok {
        match ack.error {
            Some(error) => Some(error@),
            None => Some("archive broker rejected handshake"@),
        }
    } else if ack.schema@ != BROKER_SCHEMA@ || ack.binary_version@ != binary_version
        || ack.archive_id@ != archive_id {
        Some("archive broker handshake does not match this client"@)
    } else {
        None
    }
}

/// Check the answer of a broker to the first message.
///
/// # Errors
///
/// Returns an error when the broker refused the client or is not the one that was asked for.
pub fn check_hello_ack(ack: &BrokerHelloAck, binary_version: &str, archive_id: &str) -> (result:
    Result<(), String>)
    ensures
        reports(result, hello_ack_fault(*ack, binary_version@, archive_id@)),
{
    if !ack.ok {
        return match &ack.error {
            Some(error) => Err(error.clone()),
            None => Err("archive broker rejected handshake".to_owned()),
        };
    }
    if !same_text(ack.schema.as_str(), BROKER_SCHEMA) || !same_text(
        ack.binary_version.as_str(),
        binary_version,
    ) || !same_text(ack.archive_id.as_str(), archive_id) {
        return Err("archive broker handshake does not match this client".to_owned());
    }
    Ok(())
}

/// Check the version of an operation that another program sent.
///
/// # Errors
///
/// Returns an error when the operation has another version.
pub fn check_ingest_version(operation: &ArchiveOperation) -> (result: Result<(), String>)
    ensures
        reports(
            result,
            if operation.version() == INGEST_SCHEMA_VERSION {
                None
            } else {
                Some("unsupported ingest schema version "@ + digits(operation.version() as nat))
            },
        ),
{
    let version: u32 = operation.schema_version();
    if version != INGEST_SCHEMA_VERSION {
        return Err(join2("unsupported ingest schema version ", decimal(version as u64).as_str()));
    }
    Ok(())
}

/// The deadline that a client writes into a request, from the milliseconds that are left.
pub fn request_deadline(remaining_ms: u64) -> (deadline_ms: u64)
    ensures
        1 <= deadline_ms <= ACK_DEADLINE_MS,
        1 <= remaining_ms <= ACK_DEADLINE_MS ==> deadline_ms == remaining_ms,
        remaining_ms < 1 ==> deadline_ms == 1,
        remaining_ms > ACK_DEADLINE_MS ==> deadline_ms == ACK_DEADLINE_MS,
{
    if remaining_ms < 1 {
        1
    } else if remaining_ms > ACK_DEADLINE_MS {
        ACK_DEADLINE_MS
    } else {
        remaining_ms
    }
}

/// An answer is accepted where it belongs to a request.
pub open spec fn is_checked(
    ack: ArchiveAck,
    request_id: u64,
    result: Result<ArchiveAck, String>,
) -> bool {
    if ack.request_id == request_id {
        result == Ok::<ArchiveAck, String>(ack)
    } else {
        result matches Err(error) && error@ == "archive broker acknowledgement id "@ + digits(
            ack.request_id as nat,
        ) + " does not match request "@ + digits(request_id as nat)
    }
}

/// Check that an answer belongs to a request.
///
/// # Errors
///
/// Returns an error when the answer belongs to another request.
pub fn check_ack(ack: ArchiveAck, request_id: u64) -> (result: Result<ArchiveAck, String>)
    ensures
        is_checked(ack, request_id, result),
{
    if ack.request_id != request_id {
        return Err(
            join4(
                "archive broker acknowledgement id ",
                decimal(ack.request_id).as_str(),
                " does not match request ",
                decimal(request_id).as_str(),
            ),
        );
    }
    Ok(ack)
}

/// What a client does after it sent a request for the first time.
#[derive(Debug)]
pub enum FirstAttempt {
    /// It is done.
    Done(Result<ArchiveAck, String>),
    /// It reconnects and sends the same request again.
    Reconnect(String),
}

/// What follows the first attempt: an answer is final, and a failure is tried again where that is
/// harmless.
pub open spec fn follows_first(
    outcome: Result<ArchiveAck, String>,
    policy: ReplayPolicy,
    next: FirstAttempt,
) -> bool {
    match outcome {
        Ok(ack) => next == FirstAttempt::Done(Ok::<ArchiveAck, String>(ack)),
        Err(error) => match policy {
            ReplayPolicy::SafeReplay => next == FirstAttempt::Reconnect(error),
            ReplayPolicy::UnknownOnDisconnect => next matches FirstAttempt::Done(Err(message))
                && message@ == UNKNOWN_PRUNE_OUTCOME@,
        },
    }
}

/// Decide what to do after a request was sent for the first time: an answer is final, also one
/// that refuses the request, and only a request that may be repeated is sent again.
pub fn first_attempt(outcome: Result<ArchiveAck, String>, policy: ReplayPolicy) -> (next:
    FirstAttempt)
    ensures
        follows_first(outcome, policy, next),
{
    match outcome {
        Ok(ack) => FirstAttempt::Done(Ok(ack)),
        Err(error) => match policy {
            ReplayPolicy::SafeReplay => FirstAttempt::Reconnect(error),
            ReplayPolicy::UnknownOnDisconnect => FirstAttempt::Done(
                Err(UNKNOWN_PRUNE_OUTCOME.to_owned()),
            ),
        },
    }
}

/// What a client reports after it sent a request for the second time.
///
/// # Errors
///
/// Returns both errors when the second attempt failed too.
pub fn second_attempt(first_error: &str, outcome: Result<ArchiveAck, String>) -> (result: Result<
    ArchiveAck,
    String,
>)
    ensures
        match outcome {
            Ok(ack) => result == Ok::<ArchiveAck, String>(ack),
            Err(error) => result matches Err(message) && message@
                == "archive broker request failed after reconnect: "@ + first_error@ + "; "@
                + error@,
        },
{
    match outcome {
        Ok(ack) => Ok(ack),
        Err(error) => Err(
            join4(
                "archive broker request failed after reconnect: ",
                first_error,
                "; ",
                error.as_str(),
            ),
        ),
    }
}

/// How long the next attempt to reconnect may take.
///
/// # Errors
///
/// Returns an error when no time is left.
pub fn reconnect_timeout(remaining_ms: Option<u64>) -> (result: Result<u64, String>)
    ensures
        match remaining_ms {
            None => result matches Err(error) && error@
                == "archive broker acknowledgement deadline expired during reconnect"@,
            Some(remaining) => result == Ok::<u64, String>(
                if remaining <= STARTUP_TIMEOUT_MS {
                    remaining
                } else {
                    STARTUP_TIMEOUT_MS
                },
            ),
        },
{
    match remaining_ms {
        None => Err("archive broker acknowledgement deadline expired during reconnect".to_owned()),
        Some(remaining) => Ok(
            if remaining <= STARTUP_TIMEOUT_MS {
                remaining
            } else {
                STARTUP_TIMEOUT_MS
            },
        ),
    }
}

/// How long to pause after an attempt to reconnect failed.
///
/// # Errors
///
/// Returns the error of the attempt when no time is left.
pub fn reconnect_pause(remaining_ms: Option<u64>, error: &str) -> (result: Result<u64, String>)
    ensures
        match remaining_ms {
            None => result matches Err(message) && message@
                == "could not reconnect to archive broker: "@ + error@,
            Some(remaining) => result == Ok::<u64, String>(
                if remaining <= CONNECT_DELAY_MS {
                    remaining
                } else {
                    CONNECT_DELAY_MS
                },
            ),
        },
{
    match remaining_ms {
        None => Err(join2("could not reconnect to archive broker: ", error)),
        Some(remaining) => Ok(
            if remaining <= CONNECT_DELAY_MS {
                remaining
            } else {
                CONNECT_DELAY_MS
            },
        ),
    }
}

/// What an answer means for the one who asked.
pub open spec fn is_execution(ack: ArchiveAck, result: Result<Option<String>, String>) -> bool {
    if ack.ok {
        result == Ok::<Option<String>, String>(ack.archive_ref)
    } else {
        result matches Err(message) && message@ == match ack.error {
            Some(error) => error@,
            None => "archive broker rejected the request"@,
        }
    }
}

/// What a single request gives: the reference of the call, or why the broker refused.
///
/// # Errors
///
/// Returns an error when the broker refused the request.
pub fn execution_result(ack: ArchiveAck) -> (result: Result<Option<String>, String>)
    ensures
        is_execution(ack, result),
{
    if ack.ok {
        return Ok(ack.archive_ref);
    }
    match ack.error {
        Some(error) => Err(error),
        None => Err("archive broker rejected the request".to_owned()),
    }
}

/// Where a client stands that looks for a broker, or starts one.
#[derive(Debug)]
pub enum StartupPhase {
    /// It tries the broker that may be running.
    Contact,
    /// It waits for the lock that only one starting client holds.
    Locking,
    /// It tries again under the lock.
    LockedContact,
    /// It asks whether anything listens, after the attempt under the lock failed.
    Probing(String),
    /// It asks whether a broker is alive.
    CheckingLife,
    /// It starts a broker.
    Launching,
    /// It is about to try the broker that it started.
    Polling,
    /// It tries the broker that it started.
    StartedContact,
    /// It is about to pause, after that attempt failed.
    Retrying(String),
    /// It is done.
    Ended,
}

/// What a client learns while it looks for a broker.
#[derive(Debug)]
pub enum StartupEvent {
    /// How an attempt to reach the broker ended.
    Handshake(Result<(), String>),
    /// The client holds the lock.
    Locked,
    /// Whether anything listens.
    Probed(bool),
    /// Whether no broker is alive.
    NoLiveBroker(bool),
    /// A broker was started.
    Launched,
    /// The milliseconds that are left for the broker to answer.
    Remaining(Option<u64>),
    /// The operating system refused what the client was about to do.
    Failed(String),
}

/// What a client does next while it looks for a broker.
#[derive(Debug)]
pub enum StartupAction {
    /// It tries to reach the broker within some milliseconds.
    Connect(u64),
    TakeLock,
    Probe,
    CheckLife,
    /// It removes what a dead broker left behind and starts a broker.
    Launch,
    /// It asks for the milliseconds that are left.
    ReadClock,
    /// It pauses for some milliseconds and asks for those that are left.
    Pause(u64),
    /// It uses the connection.
    Finish,
    /// It reports an error.
    Fail(String),
}

/// The event is one that the client waits for in a phase.
pub open spec fn is_awaited(phase: StartupPhase, event: StartupEvent) -> bool {
    match phase {
        StartupPhase::Contact => event is Handshake,
        StartupPhase::Locking => event is Locked || event is Failed,
        StartupPhase::LockedContact => event is Handshake,
        StartupPhase::Probing(_) => event is Probed,
        StartupPhase::CheckingLife => event is NoLiveBroker || event is Failed,
        StartupPhase::Launching => event is Launched || event is Failed,
        StartupPhase::Polling => event is Remaining,
        StartupPhase::StartedContact => event is Handshake,
        StartupPhase::Retrying(_) => event is Remaining,
        StartupPhase::Ended => false,
    }
}

/// The client reports an error.
pub open spec fn fails_with(action: StartupAction, error: Seq<char>) -> bool {
    action matches StartupAction::Fail(message) && message@ == error
}

/// What follows in a phase after an event.
pub open spec fn leads_to(
    phase: StartupPhase,
    event: StartupEvent,
    next: StartupPhase,
    action: StartupAction,
) -> bool {
    match (phase, event) {
        (_, StartupEvent::Failed(error)) => next is Ended && action == StartupAction::Fail(error),
        (_, StartupEvent::Handshake(Ok(_))) => next is Ended && action is Finish,
        (StartupPhase::Contact, StartupEvent::Handshake(Err(_))) => next is Locking
            && action is TakeLock,
        (StartupPhase::Locking, StartupEvent::Locked) => next is LockedContact && action
            == StartupAction::Connect(STARTUP_TIMEOUT_MS),
        (StartupPhase::LockedContact, StartupEvent::Handshake(Err(error))) => next
            == StartupPhase::Probing(error) && action is Probe,
        (StartupPhase::Probing(error), StartupEvent::Probed(answers)) => if answers {
            next is Ended && fails_with(action, "an existing archive broker rejected the handshake: "@ + error@)
        } else {
            next is CheckingLife && action is CheckLife
        },
        (StartupPhase::CheckingLife, StartupEvent::NoLiveBroker(none)) => if none {
            next is Launching && action is Launch
        } else {
            next is Ended && fails_with(action, "an archive broker is running but did not accept a compatible connection"@)
        },
        (StartupPhase::Launching, StartupEvent::Launched) => next is Polling && action is ReadClock,
        (StartupPhase::Polling, StartupEvent::Remaining(Some(remaining))) => next is StartedContact
            && action == StartupAction::Connect(
            if remaining <= STARTUP_TIMEOUT_MS {
                remaining
            } else {
                STARTUP_TIMEOUT_MS
            },
        ),
        (StartupPhase::Polling, StartupEvent::Remaining(None)) => next is Ended
            && fails_with(action, "archive broker did not become ready within 5000 ms"@),
        (StartupPhase::StartedContact, StartupEvent::Handshake(Err(error))) => next
            == StartupPhase::Retrying(error) && action is ReadClock,
        (StartupPhase::Retrying(_), StartupEvent::Remaining(Some(remaining))) => next is Polling
            && action == StartupAction::Pause(
            if remaining <= CONNECT_DELAY_MS {
                remaining
            } else {
                CONNECT_DELAY_MS
            },
        ),
        (StartupPhase::Retrying(error), StartupEvent::Remaining(None)) => next is Ended
            && fails_with(action, "archive broker did not become ready within 5000 ms: "@ + error@),
        _ => false,
    }
}

/// Where a client begins that looks for a broker, and what it does first.
pub fn startup_begin() -> (begin: (StartupPhase, StartupAction))
    ensures
        begin.0 is Contact,
        begin.1 == StartupAction::Connect(STARTUP_TIMEOUT_MS),
{
    (StartupPhase::Contact, StartupAction::Connect(STARTUP_TIMEOUT_MS))
}

/// Decide what a client does after an event while it looks for a broker.
pub fn startup_step(phase: StartupPhase, event: StartupEvent) -> (step: (
    StartupPhase,
    StartupAction,
))
    requires
        is_awaited(phase, event),
    ensures
        leads_to(phase, event, step.0, step.1),
{
    match (phase, event) {
        (_, StartupEvent::Failed(error)) => (StartupPhase::Ended, StartupAction::Fail(error)),
        (_, StartupEvent::Handshake(Ok(_))) => (StartupPhase::Ended, StartupAction::Finish),
        (StartupPhase::Contact, StartupEvent::Handshake(Err(_))) => (
            StartupPhase::Locking,
            StartupAction::TakeLock,
        ),
        (StartupPhase::Locking, StartupEvent::Locked) => (
            StartupPhase::LockedContact,
            StartupAction::Connect(STARTUP_TIMEOUT_MS),
        ),
        (StartupPhase::LockedContact, StartupEvent::Handshake(Err(error))) => (
            StartupPhase::Probing(error),
            StartupAction::Probe,
        ),
        (StartupPhase::Probing(error), StartupEvent::Probed(answers)) => if answers {
            (
                StartupPhase::Ended,
                StartupAction::Fail(
                    join2(
                        "an existing archive broker rejected the handshake: ",
                        error.as_str(),
                    ),
                ),
            )
        } else {
            (StartupPhase::CheckingLife, StartupAction::CheckLife)
        },
        (StartupPhase::CheckingLife, StartupEvent::NoLiveBroker(none)) => if none {
            (StartupPhase::Launching, StartupAction::Launch)
        } else {
            (
                StartupPhase::Ended,
                StartupAction::Fail(
                    "an archive broker is running but did not accept a compatible connection".to_owned(),
                ),
            )
        },
        (StartupPhase::Launching, StartupEvent::Launched) => (
            StartupPhase::Polling,
            StartupAction::ReadClock,
        ),
        (StartupPhase::Polling, StartupEvent::Remaining(Some(remaining))) => (
            StartupPhase::StartedContact,
            StartupAction::Connect(
                if remaining <= STARTUP_TIMEOUT_MS {
                    remaining
                } else {
                    STARTUP_TIMEOUT_MS
                },
            ),
        ),
        (StartupPhase::Polling, StartupEvent::Remaining(None)) => (
            StartupPhase::Ended,
            StartupAction::Fail("archive broker did not become ready within 5000 ms".to_owned()),
        ),
        (StartupPhase::StartedContact, StartupEvent::Handshake(Err(error))) => (
            StartupPhase::Retrying(error),
            StartupAction::ReadClock,
        ),
        (StartupPhase::Retrying(_), StartupEvent::Remaining(Some(remaining))) => (
            StartupPhase::Polling,
            StartupAction::Pause(
                if remaining <= CONNECT_DELAY_MS {
                    remaining
                } else {
                    CONNECT_DELAY_MS
                },
            ),
        ),
        (StartupPhase::Retrying(error), StartupEvent::Remaining(None)) => (
            StartupPhase::Ended,
            StartupAction::Fail(
                join2("archive broker did not become ready within 5000 ms: ", error.as_str()),
            ),
        ),
        _ => (StartupPhase::Ended, StartupAction::Finish),
    }
}

/// Some steps of a client that looks for a broker: the phases, and the events and actions between
/// them.
pub open spec fn is_startup(
    phases: Seq<StartupPhase>,
    events: Seq<StartupEvent>,
    actions: Seq<StartupAction>,
) -> bool {
    &&& phases.len() == events.len() + 1
    &&& actions.len() == events.len()
    &&& phases[0] is Contact
    &&& forall|i: int|
        #![trigger events[i]]
        0 <= i < events.len() ==> is_awaited(phases[i], events[i]) && leads_to(
            phases[i],
            events[i],
            phases[i + 1],
            actions[i],
        )
}

/// A broker is started only by a client that holds the lock, whose attempts before and after it
/// took the lock failed, and only when nothing listens and no broker is alive.
pub proof fn lemma_broker_starts_alone(
    phases: Seq<StartupPhase>,
    events: Seq<StartupEvent>,
    actions: Seq<StartupAction>,
    at: int,
)
    requires
        is_startup(phases, events, actions),
        0 <= at < actions.len(),
        actions[at] is Launch,
    ensures
        at == 4,
        events[0] matches StartupEvent::Handshake(Err(_)),
        events[1] is Locked,
        events[2] matches StartupEvent::Handshake(Err(_)),
        events[3] == StartupEvent::Probed(false),
        events[4] == StartupEvent::NoLiveBroker(true),
{
    let _ = events[at];
    assert(phases[at] is CheckingLife);
    assert(at > 0);
    let _ = events[at - 1];
    assert(phases[at - 1] is Probing);
    assert(at > 1);
    let _ = events[at - 2];
    assert(phases[at - 2] is LockedContact);
    assert(at > 2);
    let _ = events[at - 3];
    assert(phases[at - 3] is Locking);
    assert(at > 3);
    let _ = events[at - 4];
    assert(phases[at - 4] is Contact);
    if at > 4 {
        let _ = events[at - 5];
        assert(false);
    }
}

/// A connection is used only after its handshake.
pub proof fn lemma_connection_was_accepted(
    phase: StartupPhase,
    event: StartupEvent,
    next: StartupPhase,
    action: StartupAction,
)
    requires
        is_awaited(phase, event),
        leads_to(phase, event, next, action),
    ensures
        action is Finish <==> (event is Handshake && event->Handshake_0 is Ok),
{
}

} // verus!
