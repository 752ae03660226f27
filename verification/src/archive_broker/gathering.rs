//! How a batch is gathered from the requests that wait, and how each request is answered.
use vstd::multiset::Multiset;
use vstd::prelude::*;

use super::batch::{
    Admission, BATCH_BYTE_LIMIT, BatchState, Preparation, Verdict, WorkTicket, consider, defer,
};
use super::budget::bounded_sum;
use super::errors::safe_error;
use super::sequences::{SequenceModel, SourceSequences, recorded, regresses, without};
use crate::archive_protocol::ArchiveAck;
use crate::text::texts;

verus! {

/// A request that waits, with what belongs to it.
pub struct Waiting<P> {
    pub ticket: WorkTicket,
    pub work: P,
}

/// A request with its answer.
pub struct Answered<P> {
    pub request: Waiting<P>,
    pub ack: ArchiveAck,
}

/// The requests that some answers are given to.
pub open spec fn requests_of<P>(answers: Seq<Answered<P>>) -> Seq<Waiting<P>> {
    answers.map_values(|answer: Answered<P>| answer.request)
}

/// A batch that is gathered from requests, with those that still wait and those that were refused.
pub struct Gathering<P> {
    pub batch: BatchState,
    pub limit: usize,
    pub is_open: bool,
    pub pending: Vec<Waiting<P>>,
    pub ready: Vec<Waiting<P>>,
    pub refused: Vec<Answered<P>>,
    /// The bytes that each ready request writes.
    pub sizes: Ghost<Seq<u64>>,
}

/// The bytes that some requests write together.
pub open spec fn total_bytes(sizes: Seq<u64>) -> nat
    decreases sizes.len(),
{
    if sizes.len() == 0 {
        0
    } else {
        total_bytes(sizes.drop_last()) + sizes.last() as nat
    }
}

/// What is to be done next for a batch.
#[derive(Clone, Copy, Debug, PartialEq, Eq, Structural)]
pub enum GatherStep {
    /// The operation of the first request that waits is prepared.
    Prepare,
    /// The next request that waits is considered.
    Next,
    /// The batch takes no more.
    Close,
}

impl<P> Gathering<P> {
    /// All requests, wherever they are now.
    pub open spec fn requests(&self) -> Multiset<Waiting<P>> {
        requests_of(self.refused@).to_multiset().add(self.ready@.to_multiset()).add(
            self.pending@.to_multiset(),
        )
    }

    /// The batch counts what is ready and obeys its limits.
    pub open spec fn well_formed(&self) -> bool {
        &&& self.limit > 0
        &&& self.batch.requests == self.ready@.len()
        &&& self.batch.within_limits(self.limit)
        &&& self.batch.requests == 0 ==> self.batch.bytes == 0
        &&& self.is_open ==> self.batch.bytes <= BATCH_BYTE_LIMIT
        &&& self.sizes@.len() == self.ready@.len()
        &&& self.batch.bytes <= BATCH_BYTE_LIMIT ==> self.batch.bytes == total_bytes(self.sizes@)
    }

    /// The first request that waits is answered with an error.
    pub open spec fn refuses_first(&self, after: &Gathering<P>, error: Seq<char>) -> bool {
        &&& after.refused@.len() == self.refused@.len() + 1
        &&& after.refused@.drop_last() == self.refused@
        &&& after.refused@.last().request == self.pending@[0]
        &&& self.pending@[0].ticket.is_refused(after.refused@.last().ack, error)
        &&& after.pending@ == self.pending@.skip(1)
        &&& after.ready@ == self.ready@
        &&& after.batch == self.batch
        &&& after.is_open == self.is_open
        &&& after.sizes == self.sizes
    }

    /// Begin a batch from the requests that wait.
    pub fn begin(pending: Vec<Waiting<P>>, limit: usize) -> (gathering: Self)
        requires
            limit > 0,
        ensures
            gathering.well_formed(),
            gathering.is_open,
            gathering.limit == limit,
            gathering.pending@ == pending@,
            gathering.ready@.len() == 0,
            gathering.refused@.len() == 0,
            gathering.requests() == pending@.to_multiset(),
    {
        let gathering = Gathering {
            batch: BatchState::new(),
            limit,
            is_open: true,
            pending,
            ready: Vec::new(),
            refused: Vec::new(),
            sizes: Ghost(Seq::empty()),
        };
        proof {
            broadcast use vstd::seq_lib::group_to_multiset_ensures;

            assert(requests_of(gathering.refused@) =~= Seq::empty());
            assert(gathering.ready@ =~= Seq::empty());
            assert(gathering.requests() =~= pending@.to_multiset());
        }
        gathering
    }

    /// Decide what becomes of the first request that waits, given how far its operation has come.
    /// No request is lost, and none is answered twice.
    pub fn step(&mut self, expired: bool, sequences: &SourceSequences, preparation: &Preparation) -> (step:
        GatherStep)
        requires
            old(self).well_formed(),
            old(self).is_open,
            old(self).pending@.len() > 0,
            old(self).ready@.len() < usize::MAX,
            sequences.well_formed(),
        ensures
            final(self).well_formed(),
            final(self).requests() == old(self).requests(),
            final(self).limit == old(self).limit,
            ({
                let ticket = old(self).pending@[0].ticket;
                if expired {
                    step == GatherStep::Next && old(self).refuses_first(
                        final(self),
                        "archive broker request deadline expired"@,
                    )
                } else if regresses(sequences@, ticket.source_key@, ticket.sequence) {
                    step == GatherStep::Next && old(self).refuses_first(
                        final(self),
                        "archive operation arrived after a later operation for the same source"@,
                    )
                } else {
                    match preparation {
                        Preparation::Pending => step == GatherStep::Prepare && *final(self) == *old(
                            self,
                        ),
                        Preparation::Failed(error) => step == GatherStep::Next && old(
                            self,
                        ).refuses_first(final(self), safe_error(error@, texts(ticket.redactions@))),
                        Preparation::Ready(bytes) => {
                            &&& final(self).refused@ == old(self).refused@
                            &&& if old(self).batch.is_full_for(*bytes, old(self).limit) {
                                &&& step == GatherStep::Close
                                &&& !final(self).is_open
                                &&& final(self).ready@ == old(self).ready@
                                &&& final(self).pending@ == old(self).pending@
                                &&& final(self).batch == old(self).batch
                                &&& final(self).sizes == old(self).sizes
                            } else {
                                &&& final(self).ready@ == old(self).ready@.push(
                                    old(self).pending@[0],
                                )
                                &&& final(self).pending@ == old(self).pending@.skip(1)
                                &&& final(self).batch.bytes == bounded_sum(
                                    old(self).batch.bytes,
                                    *bytes,
                                )
                                &&& final(self).sizes@ == old(self).sizes@.push(*bytes)
                                &&& final(self).is_open == (*bytes <= BATCH_BYTE_LIMIT)
                                &&& step == if *bytes > BATCH_BYTE_LIMIT {
                                    GatherStep::Close
                                } else {
                                    GatherStep::Next
                                }
                            }
                        },
                    }
                }
            }),
    {
        let ghost before = *self;
        let mut batch = self.batch;
        let verdict = consider(
            &mut batch,
            &self.pending[0].ticket,
            expired,
            sequences,
            preparation,
            self.limit,
        );
        match verdict {
            Verdict::Prepare => GatherStep::Prepare,
            Verdict::Refuse(ack) => {
                let request = self.pending.remove(0);
                self.refused.push(Answered { request, ack });
                proof {
                    lemma_first_is_moved(before.pending@);
                    lemma_answer_is_added(before.refused@, Answered { request, ack });
                    assert(self.pending@ =~= before.pending@.skip(1));
                    assert(self.refused@.drop_last() =~= before.refused@);
                    assert(self.requests() =~= before.requests());
                }
                GatherStep::Next
            },
            Verdict::Offer(Admission::Deferred) => {
                self.is_open = false;
                GatherStep::Close
            },
            Verdict::Offer(admission) => {
                let request = self.pending.remove(0);
                self.ready.push(request);
                self.batch = batch;
                self.sizes = Ghost(before.sizes@.push(preparation->Ready_0));
                proof {
                    assert(self.sizes@.drop_last() =~= before.sizes@);
                }
                proof {
                    broadcast use vstd::seq_lib::group_to_multiset_ensures;

                    lemma_first_is_moved(before.pending@);
                    assert(self.pending@ =~= before.pending@.skip(1));
                    assert(self.requests() =~= before.requests());
                }
                if admission == Admission::TakenLast {
                    self.is_open = false;
                    GatherStep::Close
                } else {
                    GatherStep::Next
                }
            },
        }
    }

    /// End the gathering: the requests that still wait come before those of `later`. Several requests
    /// are ready only within the limits of a batch.
    pub fn finish(self, later: Vec<Waiting<P>>) -> (parts: (
        Vec<Waiting<P>>,
        Vec<Answered<P>>,
        Vec<Waiting<P>>,
    ))
        requires
            self.well_formed(),
        ensures
            parts.0@.len() <= self.limit,
            parts.0@.len() > 1 ==> total_bytes(self.sizes@) <= BATCH_BYTE_LIMIT,
            parts.0@ == self.ready@,
            parts.1@ == self.refused@,
            parts.2@ == self.pending@ + later@,
            is_divided(self.requests().add(later@.to_multiset()), parts.0@, parts.1@, parts.2@),
    {
        let ghost whole = self.requests().add(later@.to_multiset());
        let ghost waiting = self.pending@;
        let ghost behind = later@;
        let Gathering { batch: _, limit: _, is_open: _, pending, ready, refused, sizes: _ } = self;
        let deferred = defer(None, pending, later);
        proof {
            vstd::seq_lib::lemma_multiset_commutative(waiting, behind);
            assert(deferred@ == waiting + behind);
            assert(requests_of(refused@).to_multiset().add(ready@.to_multiset()).add(
                deferred@.to_multiset(),
            ) =~= whole);
        }
        (ready, refused, deferred)
    }
}

/// The requests are divided into those that are ready, those that were refused and those that wait
/// for another batch.
pub open spec fn is_divided<P>(
    requests: Multiset<Waiting<P>>,
    ready: Seq<Waiting<P>>,
    refused: Seq<Answered<P>>,
    deferred: Seq<Waiting<P>>,
) -> bool {
    requests == requests_of(refused).to_multiset().add(ready.to_multiset()).add(
        deferred.to_multiset(),
    )
}

proof fn lemma_first_is_moved<P>(pending: Seq<Waiting<P>>)
    requires
        pending.len() > 0,
    ensures
        pending.to_multiset() == pending.skip(1).to_multiset().insert(pending[0]),
{
    broadcast use vstd::seq_lib::group_to_multiset_ensures;

    assert(pending =~= seq![pending[0]] + pending.skip(1));
    vstd::seq_lib::lemma_multiset_commutative(seq![pending[0]], pending.skip(1));
    assert(seq![pending[0]] =~= Seq::<Waiting<P>>::empty().push(pending[0]));
    assert(seq![pending[0]].to_multiset() =~= Multiset::singleton(pending[0]));
    assert(pending.to_multiset() =~= pending.skip(1).to_multiset().insert(pending[0]));
}

proof fn lemma_answer_is_added<P>(answers: Seq<Answered<P>>, answer: Answered<P>)
    ensures
        requests_of(answers.push(answer)).to_multiset() == requests_of(
            answers,
        ).to_multiset().insert(answer.request),
{
    broadcast use vstd::seq_lib::group_to_multiset_ensures;

    assert(requests_of(answers.push(answer)) =~= requests_of(answers).push(answer.request));
}

/// What is known of the calls after the first `count` requests of a batch were settled.
pub open spec fn settled<P>(
    known: Seq<SequenceModel>,
    ready: Seq<Waiting<P>>,
    outcomes: Seq<Result<Option<String>, String>>,
    count: nat,
) -> Seq<SequenceModel>
    decreases count,
{
    if count == 0 {
        known
    } else {
        let earlier = settled(known, ready, outcomes, (count - 1) as nat);
        let ticket = ready[count - 1].ticket;
        if ticket.ends_source_sequence {
            without(earlier, ticket.source_key@)
        } else if outcomes[count - 1] is Ok {
            recorded(earlier, ticket.source_key@, ticket.sequence)
        } else {
            earlier
        }
    }
}

/// The answer to a request whose operation had this outcome.
pub open spec fn is_settled<P>(
    answer: Answered<P>,
    request: Waiting<P>,
    outcome: Result<Option<String>, String>,
) -> bool {
    &&& answer.request == request
    &&& match outcome {
        Ok(archive_ref) => answer.ack == (ArchiveAck {
            request_id: request.ticket.request_id,
            ok: true,
            archive_ref,
            error: None,
        }),
        Err(error) => request.ticket.is_refused(
            answer.ack,
            safe_error(error@, texts(request.ticket.redactions@)),
        ),
    }
}

/// Answer the requests of a batch that was applied, each with the outcome of its operation.
pub fn settle_batch<P>(
    ready: Vec<Waiting<P>>,
    sequences: &mut SourceSequences,
    outcomes: Vec<Result<Option<String>, String>>,
) -> (answers: Vec<Answered<P>>)
    requires
        old(sequences).well_formed(),
        outcomes@.len() == ready@.len(),
    ensures
        final(sequences).well_formed(),
        final(sequences)@ == settled(old(sequences)@, ready@, outcomes@, ready@.len()),
        requests_of(answers@) == ready@,
        forall|i: int|
            0 <= i < answers@.len() ==> is_settled(
                #[trigger] answers@[i],
                ready@[i],
                outcomes@[i],
            ),
{
    let ghost all = ready@;
    let ghost results = outcomes@;
    let ghost known = sequences@;
    let mut left = outcomes;
    let mut answers: Vec<Answered<P>> = Vec::new();
    for request in it: ready
        invariant
            it.seq() == all,
            results.len() == all.len(),
            left@ == results.skip(it.index()),
            answers@.len() == it.index(),
            sequences.well_formed(),
            sequences@ == settled(known, all, results, it.index() as nat),
            forall|j: int|
                0 <= j < it.index() ==> is_settled(#[trigger] answers@[j], all[j], results[j]),
    {
        let outcome = left.remove(0);
        let ack = request.ticket.settle(sequences, outcome);
        assert(left@ =~= results.skip(it.index() + 1));
        answers.push(Answered { request, ack });
    }
    assert(requests_of(answers@) =~= all) by {
        assert forall|j: int| 0 <= j < all.len() implies requests_of(answers@)[j] == all[j] by {
            assert(is_settled(answers@[j], all[j], results[j]));
        }
    }
    answers
}

/// Refuse the requests of a batch that could not be applied.
pub fn refuse_batch<P>(ready: Vec<Waiting<P>>, error: &str) -> (answers: Vec<Answered<P>>)
    ensures
        requests_of(answers@) == ready@,
        forall|i: int|
            0 <= i < answers@.len() ==> ready@[i].ticket.is_refused(
                (#[trigger] answers@[i]).ack,
                safe_error(error@, texts(ready@[i].ticket.redactions@)),
            ),
{
    let ghost all = ready@;
    let mut answers: Vec<Answered<P>> = Vec::new();
    for request in it: ready
        invariant
            it.seq() == all,
            answers@.len() == it.index(),
            forall|j: int|
                0 <= j < it.index() ==> (#[trigger] answers@[j]).request == all[j]
                    && all[j].ticket.is_refused(
                    answers@[j].ack,
                    safe_error(error@, texts(all[j].ticket.redactions@)),
                ),
    {
        let ack = request.ticket.refuse(error);
        answers.push(Answered { request, ack });
    }
    assert(requests_of(answers@) =~= all);
    answers
}

/// Every request is answered exactly once or waits for another batch: the requests that were refused
/// while a batch was gathered, those that were answered when it was settled, and those that were
/// deferred are together the requests that there were.
pub proof fn lemma_each_request_is_answered_once<P>(
    requests: Multiset<Waiting<P>>,
    ready: Seq<Waiting<P>>,
    refused: Seq<Answered<P>>,
    deferred: Seq<Waiting<P>>,
    answers: Seq<Answered<P>>,
)
    requires
        is_divided(requests, ready, refused, deferred),
        requests_of(answers) == ready,
    ensures
        requests == requests_of(refused + answers).to_multiset().add(deferred.to_multiset()),
{
    assert(requests_of(refused + answers) =~= requests_of(refused) + requests_of(answers));
    vstd::seq_lib::lemma_multiset_commutative(requests_of(refused), requests_of(answers));
    assert(requests =~= requests_of(refused + answers).to_multiset().add(deferred.to_multiset()));
}

} // verus!
