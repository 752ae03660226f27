//! Which requests are refused, which go into a batch, and what becomes of them.
use vstd::prelude::*;

use super::budget::bounded_sum;
use super::errors::{safe_error, safe_request_error};
use super::sequences::{SourceSequences, recorded, regresses, without};
use crate::archive_protocol::{ArchiveAck, ArchiveOperation, BROKER_SCHEMA, BrokerHello};
use crate::text::{reports, same_text, texts};

verus! {

/// How many clients and waiting requests the broker takes.
pub const GLOBAL_REQUEST_LIMIT: usize = 256;

/// How many requests a batch holds at most.
pub const BATCH_REQUEST_LIMIT: usize = 32;

/// How many bytes the requests of a batch write at most, unless it is a single one.
pub const BATCH_BYTE_LIMIT: u64 = 8_388_608;

/// The first and the longest pause before a batch is tried again, in milliseconds.
pub const BUSY_RETRY_MIN_MS: u64 = 10;

/// The longest pause before a batch is tried again, in milliseconds.
pub const BUSY_RETRY_MAX_MS: u64 = 250;

/// What is wrong with the first message of a client.
pub open spec fn hello_fault(
    hello: BrokerHello,
    binary_version: Seq<char>,
    archive_id: Seq<char>,
) -> Option<Seq<char>> {
    if hello.schema@ != BROKER_SCHEMA@ {
        Some("unsupported broker schema"@)
    } else if hello.binary_version@ != binary_version {
        Some("archive broker and client versions do not match"@)
    } else if hello.archive_id@ != archive_id {
        Some("archive broker identity does not match requested archive"@)
    } else {
        None
    }
}

/// Check the first message of a client. No error repeats what the client sent.
///
/// # Errors
///
/// Returns an error when the client speaks another protocol, has another version or asks for
/// another archive.
pub fn validate_hello(hello: &BrokerHello, binary_version: &str, archive_id: &str) -> (result:
    Result<(), String>)
    ensures
        reports(result, hello_fault(*hello, binary_version@, archive_id@)),
{
    if !same_text(hello.schema.as_str(), BROKER_SCHEMA) {
        return Err("unsupported broker schema".to_owned());
    }
    if !same_text(hello.binary_version.as_str(), binary_version) {
        return Err("archive broker and client versions do not match".to_owned());
    }
    if !same_text(hello.archive_id.as_str(), archive_id) {
        return Err("archive broker identity does not match requested archive".to_owned());
    }
    Ok(())
}

/// What the broker keeps of a request apart from its operation.
#[derive(Debug)]
pub struct WorkTicket {
    pub source_key: String,
    pub redactions: Vec<String>,
    pub sequence: u8,
    pub ends_source_sequence: bool,
    pub request_id: u64,
}

impl WorkTicket {
    /// The ticket of an operation.
    pub fn new(operation: &ArchiveOperation) -> (ticket: WorkTicket)
        ensures
            ticket.source_key@ == operation.key(),
            texts(ticket.redactions@) == operation.secrets(),
            ticket.sequence == operation.place(),
            ticket.ends_source_sequence == operation.is_last(),
            ticket.request_id == operation.number(),
    {
        WorkTicket {
            source_key: operation.source_key(),
            redactions: operation.redactions(),
            sequence: operation.sequence(),
            ends_source_sequence: operation.ends_source_sequence(),
            request_id: operation.request_id(),
        }
    }

    /// The answer to a request that was refused with an error.
    pub open spec fn is_refused(&self, ack: ArchiveAck, error: Seq<char>) -> bool {
        &&& ack.request_id == self.request_id
        &&& !ack.ok
        &&& ack.archive_ref is None
        &&& ack.error matches Some(text) && text@ == error
    }

    /// Refuse a request whose deadline has passed or that comes after a later one of its call.
    pub fn screen(&self, expired: bool, sequences: &SourceSequences) -> (refusal: Option<
        ArchiveAck,
    >)
        requires
            sequences.well_formed(),
        ensures
            if expired {
                refusal matches Some(ack) && self.is_refused(
                    ack,
                    "archive broker request deadline expired"@,
                )
            } else if regresses(sequences@, self.source_key@, self.sequence) {
                refusal matches Some(ack) && self.is_refused(
                    ack,
                    "archive operation arrived after a later operation for the same source"@,
                )
            } else {
                refusal is None
            },
    {
        if expired {
            return Some(
                ArchiveAck::failure(
                    self.request_id,
                    "archive broker request deadline expired".to_owned(),
                ),
            );
        }
        if sequences.is_regression(self.source_key.as_str(), self.sequence) {
            return Some(
                ArchiveAck::failure(
                    self.request_id,
                    "archive operation arrived after a later operation for the same source".to_owned(),
                ),
            );
        }
        None
    }

    /// Refuse a request with an error that does not tell its call.
    pub fn refuse(&self, error: &str) -> (ack: ArchiveAck)
        ensures
            self.is_refused(ack, safe_error(error@, texts(self.redactions@))),
    {
        ArchiveAck::failure(
            self.request_id,
            safe_request_error(error, self.redactions.as_slice()),
        )
    }

    /// Answer a request that was applied or refused by the archive, and take note of its call.
    pub fn settle(
        &self,
        sequences: &mut SourceSequences,
        outcome: Result<Option<String>, String>,
    ) -> (ack: ArchiveAck)
        requires
            old(sequences).well_formed(),
        ensures
            final(sequences).well_formed(),
            final(sequences)@ == if self.ends_source_sequence {
                without(old(sequences)@, self.source_key@)
            } else if outcome is Ok {
                recorded(old(sequences)@, self.source_key@, self.sequence)
            } else {
                old(sequences)@
            },
            match outcome {
                Ok(archive_ref) => ack == (ArchiveAck {
                    request_id: self.request_id,
                    ok: true,
                    archive_ref,
                    error: None,
                }),
                Err(error) => self.is_refused(ack, safe_error(error@, texts(self.redactions@))),
            },
    {
        if self.ends_source_sequence {
            sequences.finish(self.source_key.as_str());
        }
        match outcome {
            Ok(archive_ref) => {
                if !self.ends_source_sequence {
                    sequences.record(self.source_key.as_str(), self.sequence);
                }
                ArchiveAck::success(self.request_id, archive_ref)
            },
            Err(error) => self.refuse(error.as_str()),
        }
    }
}

/// What becomes of a request that is offered to a batch.
#[derive(Clone, Copy, Debug, PartialEq, Eq, Structural)]
pub enum Admission {
    /// It goes into the batch, which may take more.
    Taken,
    /// It goes into the batch, which takes no more.
    TakenLast,
    /// It waits for another batch, with all that come after it.
    Deferred,
}

/// A batch that is being put together.
#[derive(Clone, Copy, Debug, PartialEq, Eq, Structural)]
pub struct BatchState {
    pub requests: usize,
    pub bytes: u64,
}

impl BatchState {
    /// A request of some bytes does not fit any more.
    pub open spec fn is_full_for(self, bytes: u64, request_limit: usize) -> bool {
        self.requests > 0 && (self.requests >= request_limit || bounded_sum(self.bytes, bytes)
            > BATCH_BYTE_LIMIT)
    }

    /// The batch obeys its limits: only a single request may write more than the limit.
    pub open spec fn within_limits(self, request_limit: usize) -> bool {
        &&& self.requests <= 1 || self.requests <= request_limit
        &&& self.requests <= 1 || self.bytes <= BATCH_BYTE_LIMIT
    }

    /// An empty batch.
    pub fn new() -> (batch: Self)
        ensures
            batch.requests == 0,
            batch.bytes == 0,
    {
        BatchState { requests: 0, bytes: 0 }
    }

    /// Offer a request that writes some bytes.
    pub fn offer(&mut self, bytes: u64, request_limit: usize) -> (admission: Admission)
        requires
            old(self).requests < usize::MAX,
        ensures
            if old(self).is_full_for(bytes, request_limit) {
                admission == Admission::Deferred && *final(self) == *old(self)
            } else {
                &&& final(self).requests == old(self).requests + 1
                &&& final(self).bytes == bounded_sum(old(self).bytes, bytes)
                &&& admission == if bytes > BATCH_BYTE_LIMIT {
                    Admission::TakenLast
                } else {
                    Admission::Taken
                }
            },
    {
        let total: u64 = self.bytes.saturating_add(bytes);
        if self.requests > 0 && (self.requests >= request_limit || total > BATCH_BYTE_LIMIT) {
            return Admission::Deferred;
        }
        self.bytes = total;
        self.requests = self.requests + 1;
        if bytes > BATCH_BYTE_LIMIT {
            Admission::TakenLast
        } else {
            Admission::Taken
        }
    }
}

/// How far a request has come before it is offered.
#[derive(Debug)]
pub enum Preparation {
    /// Its operation has not been prepared.
    Pending,
    /// Its operation was prepared and writes some bytes.
    Ready(u64),
    /// Its operation could not be prepared.
    Failed(String),
}

/// What the broker does next with a request.
#[derive(Debug)]
pub enum Verdict {
    /// It answers the request, which goes no further.
    Refuse(ArchiveAck),
    /// It prepares the operation and considers the request again.
    Prepare,
    /// It puts the request into the batch or keeps it for another one.
    Offer(Admission),
}

/// Decide what becomes of a request that waits for a batch: it is refused when its deadline has
/// passed, when it comes after a later operation of its call, or when its operation cannot be
/// prepared; otherwise it is offered to the batch.
pub fn consider(
    batch: &mut BatchState,
    ticket: &WorkTicket,
    expired: bool,
    sequences: &SourceSequences,
    preparation: &Preparation,
    request_limit: usize,
) -> (verdict: Verdict)
    requires
        sequences.well_formed(),
        old(batch).requests < usize::MAX,
    ensures
        if expired {
            &&& verdict matches Verdict::Refuse(ack) && ticket.is_refused(
                ack,
                "archive broker request deadline expired"@,
            )
            &&& *final(batch) == *old(batch)
        } else if regresses(sequences@, ticket.source_key@, ticket.sequence) {
            &&& verdict matches Verdict::Refuse(ack) && ticket.is_refused(
                ack,
                "archive operation arrived after a later operation for the same source"@,
            )
            &&& *final(batch) == *old(batch)
        } else {
            match preparation {
                Preparation::Pending => verdict is Prepare && *final(batch) == *old(batch),
                Preparation::Failed(error) => {
                    &&& verdict matches Verdict::Refuse(ack) && ticket.is_refused(
                        ack,
                        safe_error(error@, texts(ticket.redactions@)),
                    )
                    &&& *final(batch) == *old(batch)
                },
                Preparation::Ready(bytes) => if old(batch).is_full_for(*bytes, request_limit) {
                    &&& verdict == Verdict::Offer(Admission::Deferred)
                    &&& *final(batch) == *old(batch)
                } else {
                    &&& final(batch).requests == old(batch).requests + 1
                    &&& final(batch).bytes == bounded_sum(old(batch).bytes, *bytes)
                    &&& verdict == Verdict::Offer(
                        if *bytes > BATCH_BYTE_LIMIT {
                            Admission::TakenLast
                        } else {
                            Admission::Taken
                        },
                    )
                },
            }
        },
{
    if let Some(ack) = ticket.screen(expired, sequences) {
        return Verdict::Refuse(ack);
    }
    match preparation {
        Preparation::Pending => Verdict::Prepare,
        Preparation::Failed(error) => Verdict::Refuse(ticket.refuse(error.as_str())),
        Preparation::Ready(bytes) => Verdict::Offer(batch.offer(*bytes, request_limit)),
    }
}

/// The batch after some requests were offered, as long as it took them.
pub open spec fn filled(sizes: Seq<u64>, count: nat, request_limit: usize) -> BatchState
    decreases count,
{
    if count == 0 {
        BatchState { requests: 0, bytes: 0 }
    } else {
        let before = filled(sizes, (count - 1) as nat, request_limit);
        BatchState {
            requests: (before.requests + 1) as usize,
            bytes: bounded_sum(before.bytes, sizes[count - 1]),
        }
    }
}

/// Each of the first `count` requests was taken, and the batch took more after each but the last.
pub open spec fn all_taken(sizes: Seq<u64>, count: nat, request_limit: usize) -> bool {
    forall|i: int|
        0 <= i < count ==> !filled(sizes, i as nat, request_limit).is_full_for(
            #[trigger] sizes[i],
            request_limit,
        ) && (i < count - 1 ==> sizes[i] <= BATCH_BYTE_LIMIT)
}

/// A batch obeys its limits whatever requests it took, and it takes at least one.
pub proof fn lemma_batch_within_limits(sizes: Seq<u64>, count: nat, request_limit: usize)
    requires
        count <= sizes.len() <= usize::MAX,
        all_taken(sizes, count, request_limit),
    ensures
        filled(sizes, count, request_limit).requests == count,
        filled(sizes, count, request_limit).within_limits(request_limit),
        sizes.len() > 0 ==> !filled(sizes, 0, request_limit).is_full_for(sizes[0], request_limit),
    decreases count,
{
    if count > 0 {
        let fewer = (count - 1) as nat;
        assert(all_taken(sizes, fewer, request_limit)) by {
            assert forall|i: int| 0 <= i < fewer implies !filled(
                sizes,
                i as nat,
                request_limit,
            ).is_full_for(#[trigger] sizes[i], request_limit) && (i < fewer - 1 ==> sizes[i]
                <= BATCH_BYTE_LIMIT) by {}
        }
        lemma_batch_within_limits(sizes, fewer, request_limit);
        assert(!filled(sizes, fewer, request_limit).is_full_for(sizes[count - 1], request_limit));
    }
}

/// Put the requests that a batch did not take in front of those that wait already: first the one
/// that was offered last, then the ones behind it. No request overtakes another.
pub fn defer<T>(offered: Option<T>, behind: Vec<T>, waiting: Vec<T>) -> (queue: Vec<T>)
    ensures
        queue@ == match offered {
            Some(request) => seq![request] + behind@ + waiting@,
            None => behind@ + waiting@,
        },
{
    let mut queue: Vec<T> = Vec::new();
    if let Some(request) = offered {
        queue.push(request);
    }
    let mut next = behind;
    let mut last = waiting;
    queue.append(&mut next);
    queue.append(&mut last);
    queue
}

/// What the broker does after a batch could not be applied.
#[derive(Clone, Copy, Debug, PartialEq, Eq, Structural)]
pub enum RetryDecision {
    /// It refuses the requests of the batch.
    Refuse,
    /// It pauses, tries again, and pauses for `next_delay_ms` the next time.
    Pause { milliseconds: u64, next_delay_ms: u64 },
}

/// Decide what to do after a batch could not be applied: only a busy archive is tried again, and
/// only before the deadline.
pub fn retry_batch(busy: bool, remaining_ms: u64, delay_ms: u64) -> (decision: RetryDecision)
    requires
        delay_ms <= BUSY_RETRY_MAX_MS,
    ensures
        decision == if !busy || remaining_ms == 0 {
            RetryDecision::Refuse
        } else {
            RetryDecision::Pause {
                milliseconds: if delay_ms <= remaining_ms {
                    delay_ms
                } else {
                    remaining_ms
                },
                next_delay_ms: if delay_ms * 2 <= BUSY_RETRY_MAX_MS {
                    (delay_ms * 2) as u64
                } else {
                    BUSY_RETRY_MAX_MS
                },
            }
        },
{
    if !busy || remaining_ms == 0 {
        return RetryDecision::Refuse;
    }
    RetryDecision::Pause {
        milliseconds: if delay_ms <= remaining_ms {
            delay_ms
        } else {
            remaining_ms
        },
        next_delay_ms: if delay_ms * 2 <= BUSY_RETRY_MAX_MS {
            delay_ms * 2
        } else {
            BUSY_RETRY_MAX_MS
        },
    }
}

/// What the broker does while no request comes.
#[derive(Clone, Copy, Debug, PartialEq, Eq, Structural)]
pub enum IdleDecision {
    /// It waits on, and the time without clients goes on.
    Wait,
    /// It waits on, and the time without clients starts anew.
    Restart,
    /// It stops.
    Stop,
}

/// Decide what to do while no request comes: the broker stops after a time without clients.
pub fn idle_step(active_clients: usize, idle_ms: u64, grace_ms: u64) -> (decision: IdleDecision)
    ensures
        decision == if active_clients > 0 {
            IdleDecision::Restart
        } else if idle_ms >= grace_ms {
            IdleDecision::Stop
        } else {
            IdleDecision::Wait
        },
{
    if active_clients > 0 {
        IdleDecision::Restart
    } else if idle_ms >= grace_ms {
        IdleDecision::Stop
    } else {
        IdleDecision::Wait
    }
}

} // verus!
