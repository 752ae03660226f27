//! Bounded memory for one line and for short raw output.
use std::collections::VecDeque;

use vstd::prelude::*;

use crate::bytes::{append, append_decimal, append_text, copy};
use crate::rule_pack::model::OutputPolicy;

verus! {

const LINE_MARKER_RESERVE: usize = 96;

/// One source line, as far as it was kept.
#[derive(Clone, Debug)]
pub struct LineView {
    pub prefix: Vec<u8>,
    pub tail: VecDeque<u8>,
    pub line_ending: Vec<u8>,
    pub total_bytes: usize,
    pub truncated: bool,
}

/// The contents of a [`LineView`].
#[verifier::ext_equal]
pub struct LineModel {
    pub prefix: Seq<u8>,
    pub tail: Seq<u8>,
    pub line_ending: Seq<u8>,
    pub total_bytes: usize,
    pub truncated: bool,
}

impl LineModel {
    /// The bytes at the end of the line, as far as they were kept.
    pub open spec fn ending_bytes(self) -> Seq<u8> {
        if self.truncated {
            self.tail
        } else {
            self.prefix
        }
    }
}

impl View for LineView {
    type V = LineModel;

    open spec fn view(&self) -> LineModel {
        LineModel {
            prefix: self.prefix@,
            tail: self.tail@,
            line_ending: self.line_ending@,
            total_bytes: self.total_bytes,
            truncated: self.truncated,
        }
    }
}

impl LineView {
    /// The whole line, if nothing of it was dropped.
    #[must_use]
    pub fn full_bytes(&self) -> (full: Option<&[u8]>)
        ensures
            full is Some <==> !self.truncated,
            full matches Some(bytes) ==> bytes@ == self@.prefix,
    {
        if self.truncated {
            None
        } else {
            Some(self.prefix.as_slice())
        }
    }

    /// The bytes at the end of the line.
    #[must_use]
    pub fn tail_bytes(&self) -> (bytes: Vec<u8>)
        ensures
            bytes@ == self@.ending_bytes(),
    {
        if !self.truncated {
            return copy(self.prefix.as_slice());
        }
        let mut bytes: Vec<u8> = Vec::new();
        let mut i: usize = 0;
        while i < self.tail.len()
            invariant
                i <= self.tail@.len(),
                bytes@ == self.tail@.take(i as int),
            decreases self.tail@.len() - i,
        {
            bytes.push(self.tail[i]);
            assert(self.tail@.take(i + 1) =~= self.tail@.take(i as int).push(self.tail@[i as int]));
            i += 1;
        }
        assert(self.tail@.take(self.tail@.len() as int) =~= self.tail@);
        bytes
    }
}

/// What a [`LineAccumulator`] remembers.
#[verifier::ext_equal]
pub struct LineState {
    pub prefix: Seq<u8>,
    pub tail: Seq<u8>,
    pub total_bytes: nat,
    pub prefix_limit: nat,
    pub tail_limit: nat,
    pub previous_byte: Option<u8>,
    pub last_byte: Option<u8>,
}

/// `value`, but at most the largest machine word.
pub open spec fn saturated(value: nat) -> nat {
    if value > usize::MAX {
        usize::MAX as nat
    } else {
        value
    }
}

/// `left - right`, but at least zero.
pub open spec fn less(left: nat, right: nat) -> nat {
    if left > right {
        (left - right) as nat
    } else {
        0
    }
}

/// The last `limit` bytes of `value`.
pub open spec fn last_bytes(value: Seq<u8>, limit: nat) -> Seq<u8> {
    value.subrange(less(value.len(), limit) as int, value.len() as int)
}

/// The first `limit` bytes of `value`.
pub open spec fn first_bytes(value: Seq<u8>, limit: nat) -> Seq<u8> {
    value.subrange(0, if value.len() < limit { value.len() as int } else { limit as int })
}

impl LineState {
    /// The state before the first byte of a line.
    pub open spec fn fresh(prefix_limit: nat, tail_limit: nat) -> LineState {
        LineState {
            prefix: Seq::empty(),
            tail: Seq::empty(),
            total_bytes: 0,
            prefix_limit,
            tail_limit,
            previous_byte: None,
            last_byte: None,
        }
    }

    /// The kept bytes stay within their limits.
    pub open spec fn bounded(self) -> bool {
        &&& self.prefix.len() <= self.prefix_limit <= usize::MAX
        &&& self.tail.len() <= self.tail_limit <= usize::MAX
        &&& self.total_bytes <= usize::MAX
    }

    /// The state after one more source byte.
    pub open spec fn observed(self, byte: u8) -> LineState {
        LineState {
            total_bytes: saturated(self.total_bytes + 1),
            previous_byte: self.last_byte,
            last_byte: Some(byte),
            ..self
        }
    }

    /// The source has reached the part of the line that the prefix may not show.
    pub open spec fn near_limit(self) -> bool {
        self.total_bytes >= less(self.prefix_limit, 10)
    }

    /// The state after one more output byte.
    pub open spec fn extended(self, byte: u8) -> LineState {
        LineState {
            prefix: first_bytes(self.prefix.push(byte), self.prefix_limit),
            tail: last_bytes(self.tail.push(byte), self.tail_limit),
            ..self
        }
    }

    /// The line ending that the last source bytes make.
    pub open spec fn line_ending(self) -> Seq<u8> {
        if self.last_byte == Some(10u8) {
            if self.previous_byte == Some(13u8) {
                seq![13u8, 10u8]
            } else {
                seq![10u8]
            }
        } else {
            Seq::empty()
        }
    }

    /// The line that was collected.
    pub open spec fn line(self) -> LineModel {
        LineModel {
            prefix: self.prefix,
            tail: self.tail,
            line_ending: self.line_ending(),
            total_bytes: self.total_bytes as usize,
            truncated: self.total_bytes > self.prefix_limit,
        }
    }

    /// The state for the next line.
    pub open spec fn cleared(self) -> LineState {
        LineState::fresh(self.prefix_limit, self.tail_limit)
    }

    /// The state after a run of output bytes.
    pub open spec fn extended_by(self, output: Seq<u8>) -> LineState
        decreases output.len(),
    {
        if output.len() == 0 {
            self
        } else {
            self.extended_by(output.drop_last()).extended(output.last())
        }
    }
}

/// A line accumulator keeps the first and the last output bytes of a line.
pub proof fn lemma_accumulator_keeps_both_ends(
    prefix_limit: nat,
    tail_limit: nat,
    output: Seq<u8>,
)
    ensures
        LineState::fresh(prefix_limit, tail_limit).extended_by(output) == (LineState {
            prefix: first_bytes(output, prefix_limit),
            tail: last_bytes(output, tail_limit),
            ..LineState::fresh(prefix_limit, tail_limit)
        }),
    decreases output.len(),
{
    let fresh = LineState::fresh(prefix_limit, tail_limit);
    if output.len() == 0 {
        assert(first_bytes(output, prefix_limit) =~= fresh.prefix);
        assert(last_bytes(output, tail_limit) =~= fresh.tail);
    } else {
        let rest = output.drop_last();
        lemma_accumulator_keeps_both_ends(prefix_limit, tail_limit, rest);
        assert(first_bytes(first_bytes(rest, prefix_limit).push(output.last()), prefix_limit)
            =~= first_bytes(output, prefix_limit));
        assert(last_bytes(last_bytes(rest, tail_limit).push(output.last()), tail_limit)
            =~= last_bytes(output, tail_limit));
    }
}

/// Collects the bounded ends of one line.
#[derive(Debug)]
pub struct LineAccumulator {
    prefix: Vec<u8>,
    tail: VecDeque<u8>,
    total_bytes: usize,
    prefix_limit: usize,
    tail_limit: usize,
    previous_byte: Option<u8>,
    last_byte: Option<u8>,
}

impl View for LineAccumulator {
    type V = LineState;

    closed spec fn view(&self) -> LineState {
        LineState {
            prefix: self.prefix@,
            tail: self.tail@,
            total_bytes: self.total_bytes as nat,
            prefix_limit: self.prefix_limit as nat,
            tail_limit: self.tail_limit as nat,
            previous_byte: self.previous_byte,
            last_byte: self.last_byte,
        }
    }
}

impl LineAccumulator {
    /// An empty line with room for `prefix_limit` and `tail_limit` bytes.
    #[must_use]
    pub fn new(prefix_limit: usize, tail_limit: usize) -> (accumulator: Self)
        ensures
            accumulator@ == LineState::fresh(prefix_limit as nat, tail_limit as nat),
            accumulator@.bounded(),
    {
        LineAccumulator {
            prefix: Vec::new(),
            tail: VecDeque::new(),
            total_bytes: 0,
            prefix_limit,
            tail_limit,
            previous_byte: None,
            last_byte: None,
        }
    }

    /// Count one source byte; the result says whether the prefix may no longer show it.
    pub fn observe_source(&mut self, byte: u8) -> (near_limit: bool)
        requires
            old(self)@.bounded(),
        ensures
            final(self)@ == old(self)@.observed(byte),
            final(self)@.bounded(),
            near_limit == final(self)@.near_limit(),
    {
        self.total_bytes = self.total_bytes.saturating_add(1);
        self.previous_byte = self.last_byte;
        self.last_byte = Some(byte);
        self.total_bytes >= self.prefix_limit.saturating_sub(10)
    }

    /// Keep one output byte.
    pub fn push_output(&mut self, byte: u8)
        requires
            old(self)@.bounded(),
        ensures
            final(self)@ == old(self)@.extended(byte),
            final(self)@.bounded(),
    {
        let ghost before = self@;
        if self.prefix.len() < self.prefix_limit {
            self.prefix.push(byte);
        }
        assert(self.prefix@ =~= first_bytes(before.prefix.push(byte), before.prefix_limit));
        if self.tail_limit > 0 {
            if self.tail.len() == self.tail_limit {
                let _ = self.tail.pop_front();
            }
            self.tail.push_back(byte);
        }
        assert(self.tail@ =~= last_bytes(before.tail.push(byte), before.tail_limit));
    }

    /// Hand out the collected line and start the next one.
    pub fn take(&mut self) -> (line: LineView)
        requires
            old(self)@.bounded(),
        ensures
            line@ == old(self)@.line(),
            final(self)@ == old(self)@.cleared(),
            final(self)@.bounded(),
    {
        let total_bytes: usize = self.total_bytes;
        let mut line_ending: Vec<u8> = Vec::new();
        if let Some(10) = self.last_byte {
            if let Some(13) = self.previous_byte {
                line_ending.push(13);
            }
            line_ending.push(10);
        }
        assert(line_ending@ =~= self@.line_ending());
        let mut prefix: Vec<u8> = Vec::new();
        std::mem::swap(&mut prefix, &mut self.prefix);
        let mut tail: VecDeque<u8> = VecDeque::new();
        std::mem::swap(&mut tail, &mut self.tail);
        self.total_bytes = 0;
        self.previous_byte = None;
        self.last_byte = None;
        LineView {
            prefix,
            tail,
            line_ending,
            total_bytes,
            truncated: total_bytes > self.prefix_limit,
        }
    }

    /// Whether no source byte has been counted for this line.
    #[must_use]
    pub fn is_empty(&self) -> (empty: bool)
        ensures
            empty == (self@.total_bytes == 0),
    {
        self.total_bytes == 0
    }
}

/// What remains of short raw output after one more chunk: all of it, or nothing once it has
/// grown past `limit`.
pub open spec fn short_enough(kept: Option<Seq<u8>>, limit: nat, chunk: Seq<u8>) -> Option<
    Seq<u8>,
> {
    match kept {
        Some(body) if body.len() + chunk.len() <= limit => Some(body + chunk),
        _ => None,
    }
}

/// Short raw output does not depend on how it was cut into chunks.
pub proof fn lemma_short_raw_ignores_chunk_boundaries(
    kept: Option<Seq<u8>>,
    limit: nat,
    first: Seq<u8>,
    second: Seq<u8>,
)
    ensures
        short_enough(short_enough(kept, limit, first), limit, second) == short_enough(
            kept,
            limit,
            first + second,
        ),
{
    if let Some(body) = kept {
        assert((body + first) + second =~= body + (first + second));
    }
}

/// The reduction saves enough to stand in for the raw output.
pub open spec fn saves_enough(raw: Seq<u8>, reduced: Seq<u8>, policy: OutputPolicy) -> bool {
    &&& reduced.len() < raw.len()
    &&& raw.len() - reduced.len() >= policy.min_savings_bytes
    &&& (raw.len() - reduced.len()) * 10_000 >= raw.len() * policy.min_savings_basis_points
}

/// The output that is shown: short raw output unless the reduction saves enough.
pub open spec fn chosen_output(
    kept: Option<Seq<u8>>,
    reduced: Seq<u8>,
    policy: OutputPolicy,
) -> Seq<u8> {
    match kept {
        Some(raw) if raw.len() <= policy.max_output_bytes && !saves_enough(raw, reduced, policy)
            => raw,
        _ => reduced,
    }
}

/// Remembers raw output while it is short.
#[derive(Debug)]
pub struct ShortRaw {
    body: Option<Vec<u8>>,
    limit: usize,
    total_bytes: usize,
}

impl ShortRaw {
    /// The raw output, while it is short enough.
    pub closed spec fn kept(&self) -> Option<Seq<u8>> {
        match self.body {
            Some(body) => Some(body@),
            None => None,
        }
    }

    /// The length up to which raw output is remembered.
    pub closed spec fn limit(&self) -> nat {
        self.limit as nat
    }

    /// What is remembered is the whole of the raw output.
    pub closed spec fn well_formed(&self) -> bool {
        self.body matches Some(body) ==> body@.len() == self.total_bytes && body@.len()
            <= self.limit
    }

    /// What is remembered fits the limit.
    pub proof fn lemma_kept_within_limit(&self)
        requires
            self.well_formed(),
        ensures
            self.kept() matches Some(raw) ==> raw.len() <= self.limit(),
    {
    }

    /// No output yet; the larger of the two output budgets is the limit.
    #[must_use]
    pub fn new(success: OutputPolicy, failure: OutputPolicy) -> (raw: Self)
        ensures
            raw.well_formed(),
            raw.kept() == Some(Seq::<u8>::empty()),
            raw.limit() == if success.max_output_bytes > failure.max_output_bytes {
                success.max_output_bytes
            } else {
                failure.max_output_bytes
            },
    {
        let limit: usize = if success.max_output_bytes > failure.max_output_bytes {
            success.max_output_bytes
        } else {
            failure.max_output_bytes
        };
        ShortRaw { body: Some(Vec::new()), limit, total_bytes: 0 }
    }

    /// Remember one more chunk.
    pub fn push(&mut self, chunk: &[u8])
        requires
            old(self).well_formed(),
        ensures
            final(self).well_formed(),
            final(self).limit() == old(self).limit(),
            final(self).kept() == short_enough(old(self).kept(), old(self).limit(), chunk@),
    {
        self.total_bytes = self.total_bytes.saturating_add(chunk.len());
        let mut body: Option<Vec<u8>> = None;
        std::mem::swap(&mut body, &mut self.body);
        if let Some(mut kept) = body {
            if chunk.len() <= self.limit - kept.len() {
                append(&mut kept, chunk);
                self.body = Some(kept);
            }
        }
    }

    /// Choose between the raw output and its reduction.
    #[must_use]
    pub fn choose_output(self, reduced: Vec<u8>, policy: OutputPolicy) -> (output: Vec<u8>)
        requires
            self.well_formed(),
        ensures
            output@ == chosen_output(self.kept(), reduced@, policy),
    {
        let Some(raw) = self.body else {
            return reduced;
        };
        if raw.len() > policy.max_output_bytes || reduced.len() >= raw.len() {
            return if raw.len() > policy.max_output_bytes {
                reduced
            } else {
                raw
            };
        }
        let savings: usize = raw.len() - reduced.len();
        let basis_points: u128 = policy.min_savings_basis_points as u128;
        let length: u128 = raw.len() as u128;
        assert(length * basis_points <= 0xffff_ffff_ffff_ffff * 0xffff) by (nonlinear_arith)
            requires
                length <= 0xffff_ffff_ffff_ffff,
                basis_points <= 0xffff,
        ;
        let proportional: bool = savings as u128 * 10_000 >= length * basis_points;
        if savings < policy.min_savings_bytes || !proportional {
            raw
        } else {
            reduced
        }
    }
}

/// The note that stands in a shortened line.
pub open spec fn line_marker(omitted: nat) -> Seq<u8> {
    crate::bytes::lit("[yarp: line truncated; ") + crate::bytes::decimal(omitted)
        + crate::bytes::lit(" bytes omitted]")
}

/// The room for source bytes in a shortened line whose note counts `omitted` bytes.
pub open spec fn line_room(limit: nat, ending: nat, omitted: nat) -> nat {
    let marker = line_marker(omitted).len();
    less(less(limit, if marker < 96 { marker } else { 96 }), ending)
}

/// The bytes that are left out where the note counts `omitted` bytes.
pub open spec fn omitted_with(total: nat, limit: nat, ending: nat, omitted: nat) -> nat {
    less(total, saturated(line_room(limit, ending, omitted) + ending))
}

/// Follow the count of omitted bytes until the note states it exactly.
pub open spec fn settled_omission(
    total: nat,
    limit: nat,
    ending: nat,
    omitted: nat,
    steps: nat,
) -> nat
    decreases steps,
{
    let next = omitted_with(total, limit, ending, omitted);
    if next == omitted || steps == 0 {
        omitted
    } else {
        settled_omission(total, limit, ending, next, (steps - 1) as nat)
    }
}

/// The count of omitted bytes in the note of a line of `total` bytes that is cut to `limit`.
pub open spec fn line_omission(total: nat, limit: nat, ending: nat) -> nat {
    settled_omission(total, limit, ending, less(total, limit), total + 1)
}

/// A shortened line before the final cut to `limit` bytes.
pub open spec fn shortened_line(line: LineModel, limit: nat, two_sided: bool) -> Seq<u8> {
    let ending = line.line_ending;
    let omitted = line_omission(line.total_bytes as nat, limit, ending.len());
    let room = line_room(limit, ending.len(), omitted);
    if two_sided {
        let first = room / 2;
        let tail = line.ending_bytes();
        let start = less(tail.len(), saturated((room - first) as nat + ending.len()));
        let end = less(tail.len(), ending.len());
        first_bytes(line.prefix, first) + line_marker(omitted) + (if start < end {
            tail.subrange(start as int, end as int)
        } else {
            Seq::empty()
        }) + ending
    } else {
        first_bytes(line.prefix, room) + line_marker(omitted) + ending
    }
}

/// A line as it is shown within `limit` bytes.
pub open spec fn rendered_line(line: LineModel, limit: nat, two_sided: bool) -> Seq<u8> {
    if line.total_bytes <= limit {
        line.prefix
    } else {
        first_bytes(shortened_line(line, limit, two_sided), limit)
    }
}

proof fn lemma_marker_len(omitted: nat)
    ensures
        line_marker(omitted).len() == 38 + crate::bytes::decimal(omitted).len(),
{
    reveal_strlit("[yarp: line truncated; ");
    reveal_strlit(" bytes omitted]");
    vstd::utf8::is_ascii_chars_encode_utf8("[yarp: line truncated; "@);
    vstd::utf8::is_ascii_chars_encode_utf8(" bytes omitted]"@);
}

proof fn lemma_omission_monotone(total: nat, limit: nat, ending: nat, small: nat, large: nat)
    requires
        small <= large,
    ensures
        omitted_with(total, limit, ending, small) <= omitted_with(total, limit, ending, large),
        omitted_with(total, limit, ending, large) <= total,
{
    lemma_marker_len(small);
    lemma_marker_len(large);
    crate::bytes::lemma_decimal_len_monotone(small, large);
}

/// A shortened line with enough room keeps its own line ending.
pub proof fn lemma_shortened_line_keeps_its_ending(line: LineModel, limit: nat, two_sided: bool)
    requires
        line.total_bytes > limit,
        limit >= 96 + line.line_ending.len(),
    ensures
        crate::bytes::has_suffix(rendered_line(line, limit, two_sided), line.line_ending),
{
    let omitted = line_omission(line.total_bytes as nat, limit, line.line_ending.len());
    lemma_settled_in_range(
        line.total_bytes as nat,
        limit,
        line.line_ending.len(),
        less(line.total_bytes as nat, limit),
        line.total_bytes as nat + 1,
    );
    lemma_marker_len(omitted);
    crate::bytes::lemma_decimal_len_u64(omitted);
    let whole = shortened_line(line, limit, two_sided);
    assert(whole.len() <= limit);
    assert(first_bytes(whole, limit) =~= whole);
    assert(whole.subrange(whole.len() - line.line_ending.len(), whole.len() as int)
        =~= line.line_ending);
}

proof fn lemma_settled_in_range(total: nat, limit: nat, ending: nat, omitted: nat, steps: nat)
    requires
        omitted <= total,
    ensures
        settled_omission(total, limit, ending, omitted, steps) <= total,
    decreases steps,
{
    let next = omitted_with(total, limit, ending, omitted);
    if next != omitted && steps > 0 {
        lemma_settled_in_range(total, limit, ending, next, (steps - 1) as nat);
    }
}

fn append_line_marker(output: &mut Vec<u8>, omitted: usize)
    ensures
        final(output)@ == old(output)@ + line_marker(omitted as nat),
{
    let ghost before = output@;
    append_text(output, "[yarp: line truncated; ");
    append_decimal(output, omitted as u64);
    append_text(output, " bytes omitted]");
    assert(output@ =~= before + line_marker(omitted as nat));
}

/// Settle the count of omitted bytes; the result is the count and the room that it leaves.
fn settle_omission(total: usize, limit: usize, ending: usize) -> (settled: (usize, usize))
    requires
        total > limit,
    ensures
        settled.0 == line_omission(total as nat, limit as nat, ending as nat),
        settled.1 == line_room(limit as nat, ending as nat, settled.0 as nat),
{
    let mut omitted: usize = total - limit;
    let ghost mut steps: nat = total as nat + 1;
    let ghost growing = omitted_with(total as nat, limit as nat, ending as nat, omitted as nat)
        >= omitted;
    let ghost first: nat = omitted as nat;
    loop
        invariant
            total > limit,
            settled_omission(total as nat, limit as nat, ending as nat, omitted as nat, steps)
                == line_omission(total as nat, limit as nat, ending as nat),
            omitted <= total,
            growing ==> omitted_with(total as nat, limit as nat, ending as nat, omitted as nat)
                >= omitted && total - omitted < steps,
            !growing ==> omitted_with(total as nat, limit as nat, ending as nat, omitted as nat)
                <= omitted && omitted < steps,
        decreases steps,
    {
        let mut marker: Vec<u8> = Vec::new();
        append_line_marker(&mut marker, omitted);
        let marker_len: usize = if marker.len() < LINE_MARKER_RESERVE {
            marker.len()
        } else {
            LINE_MARKER_RESERVE
        };
        assert(marker@ =~= line_marker(omitted as nat));
        let room: usize = limit.saturating_sub(marker_len).saturating_sub(ending);
        let next: usize = total.saturating_sub(room.saturating_add(ending));
        assert(next == omitted_with(total as nat, limit as nat, ending as nat, omitted as nat));
        if next == omitted {
            return (omitted, room);
        }
        proof {
            if growing {
                lemma_omission_monotone(
                    total as nat,
                    limit as nat,
                    ending as nat,
                    omitted as nat,
                    next as nat,
                );
            } else {
                lemma_omission_monotone(
                    total as nat,
                    limit as nat,
                    ending as nat,
                    next as nat,
                    omitted as nat,
                );
            }
            steps = (steps - 1) as nat;
        }
        omitted = next;
    }
}

/// Show a line within `limit` bytes; the result says whether anything was left out.
pub fn render_line(line: &LineView, limit: usize, two_sided: bool) -> (rendered: (Vec<u8>, bool))
    ensures
        rendered.0@ == rendered_line(line@, limit as nat, two_sided),
        rendered.1 == (line.total_bytes > limit),
        rendered.1 ==> rendered.0@.len() <= limit,
{
    if line.total_bytes <= limit {
        return (copy(line.prefix.as_slice()), false);
    }
    let ending: &[u8] = line.line_ending.as_slice();
    let (omitted, room) = settle_omission(line.total_bytes, limit, ending.len());
    let mut output: Vec<u8> = Vec::new();
    if two_sided {
        let tail: Vec<u8> = line.tail_bytes();
        let first: usize = room / 2;
        let last: usize = room - first;
        let shown: usize = if line.prefix.len() < first {
            line.prefix.len()
        } else {
            first
        };
        append(&mut output, &line.prefix.as_slice()[0..shown]);
        append_line_marker(&mut output, omitted);
        let start: usize = tail.len().saturating_sub(last.saturating_add(ending.len()));
        let end: usize = tail.len().saturating_sub(ending.len());
        if start < end {
            append(&mut output, &tail.as_slice()[start..end]);
        }
    } else {
        let shown: usize = if line.prefix.len() < room {
            line.prefix.len()
        } else {
            room
        };
        append(&mut output, &line.prefix.as_slice()[0..shown]);
        append_line_marker(&mut output, omitted);
    }
    append(&mut output, ending);
    assert(output@ =~= shortened_line(line@, limit as nat, two_sided));
    let ghost whole = output@;
    output.truncate(limit);
    assert(output@ =~= first_bytes(whole, limit as nat));
    (output, true)
}

} // verus!
