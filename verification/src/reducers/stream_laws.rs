//! What a stream makes of the lines of its input.
use vstd::prelude::*;

use super::bounded::{LineModel, LineState, first_bytes, last_bytes};
use super::bucket::one_more;
use super::evidence::{EvidenceClass, ObservedLine, observed_lines};
use super::filter::AnsiState;
use super::stream::StreamModel;
use super::wording::opens_exactly;
use crate::rule_pack::model::ReducerModel;

verus! {

/// A whole line: it ends with its only line break, and holds no terminal control sequence.
pub open spec fn is_plain_line(line: Seq<u8>) -> bool {
    &&& line.len() > 0
    &&& line.last() == 10
    &&& forall|i: int| 0 <= i < line.len() - 1 ==> #[trigger] line[i] != 10
    &&& forall|i: int| 0 <= i < line.len() ==> #[trigger] line[i] != 0x1b
}

/// What is kept of a line of which `limit` bytes are kept at either end.
pub open spec fn line_of(line: Seq<u8>, limit: nat) -> LineModel {
    LineModel {
        prefix: if line.len() <= limit {
            line
        } else {
            line.take(limit as int)
        },
        tail: if line.len() <= limit {
            line
        } else {
            line.skip(line.len() - limit)
        },
        line_ending: if line.len() >= 2 && line[line.len() - 2] == 13 {
            seq![13u8, 10u8]
        } else {
            seq![10u8]
        },
        total_bytes: line.len() as usize,
        truncated: line.len() > limit,
    }
}

/// The bytes of some lines.
pub open spec fn text_of(lines: Seq<Seq<u8>>) -> Seq<u8>
    decreases lines.len(),
{
    if lines.len() == 0 {
        Seq::empty()
    } else {
        text_of(lines.drop_last()) + lines.last()
    }
}

spec fn between_lines(stream: StreamModel, limit: nat) -> bool {
    &&& stream.line == LineState::fresh(limit, limit)
    &&& stream.ansi == None::<AnsiState> || stream.ansi == Some(AnsiState::Ground)
}

proof fn lemma_open_line(stream: StreamModel, part: Seq<u8>, limit: nat)
    requires
        between_lines(stream, limit),
        part.len() <= usize::MAX,
        forall|i: int| 0 <= i < part.len() ==> #[trigger] part[i] != 10 && part[i] != 0x1b,
    ensures
        ({
            let read = stream.scanned(part);
            &&& read.line.prefix == first_bytes(part, limit)
            &&& read.line.tail == last_bytes(part, limit)
            &&& read.line.total_bytes == part.len()
            &&& read.line.prefix_limit == limit && read.line.tail_limit == limit
            &&& read.line.last_byte == if part.len() > 0 {
                Some(part.last())
            } else {
                None
            }
            &&& read == (StreamModel { line: read.line, terms: read.terms, ..stream })
        }),
    decreases part.len(),
{
    if part.len() == 0 {
        assert(first_bytes(part, limit) =~= Seq::empty());
        assert(last_bytes(part, limit) =~= Seq::empty());
    } else {
        let rest = part.drop_last();
        assert forall|i: int| 0 <= i < rest.len() implies #[trigger] rest[i] != 10 && rest[i]
            != 0x1b by {
            assert(rest[i] == part[i]);
        }
        lemma_open_line(stream, rest, limit);
        assert(part[part.len() - 1] == part.last());
        assert(first_bytes(first_bytes(rest, limit).push(part.last()), limit) =~= first_bytes(
            part,
            limit,
        ));
        assert(last_bytes(last_bytes(rest, limit).push(part.last()), limit) =~= last_bytes(
            part,
            limit,
        ));
    }
}

proof fn lemma_closed_line(stream: StreamModel, line: Seq<u8>, limit: nat)
    requires
        between_lines(stream, limit),
        is_plain_line(line),
        line.len() <= usize::MAX,
    ensures
        ({
            let closed = stream.scanned(line.drop_last()).with_byte(10);
            &&& closed.line.line() == line_of(line, limit)
            &&& closed.line.cleared() == stream.line
            &&& closed == (StreamModel { line: closed.line, terms: closed.terms, ..stream })
        }),
{
    let part = line.drop_last();
    assert forall|i: int| 0 <= i < part.len() implies #[trigger] part[i] != 10 && part[i]
        != 0x1b by {
        assert(part[i] == line[i]);
    }
    lemma_open_line(stream, part, limit);
    let open = stream.scanned(part);
    let closed = open.with_byte(10);
    assert(first_bytes(first_bytes(part, limit).push(10u8), limit) =~= line_of(line, limit).prefix);
    assert(last_bytes(last_bytes(part, limit).push(10u8), limit) =~= line_of(line, limit).tail);
    assert(part.len() > 0 ==> part.last() == line[line.len() - 2]);
    let model = closed.line.line();
    assert(model.line_ending =~= line_of(line, limit).line_ending);
    assert(model =~= line_of(line, limit));
}

proof fn lemma_whole_line(stream: StreamModel, line: Seq<u8>, limit: nat)
    requires
        between_lines(stream, limit),
        is_plain_line(line),
        line.len() <= usize::MAX,
    ensures
        ({
            let read = stream.scanned(line);
            &&& between_lines(read, limit)
            &&& read == (StreamModel {
                terms: read.terms,
                ..stream.with_line(line_of(line, limit))
            })
        }),
{
    lemma_closed_line(stream, line, limit);
    let closed = stream.scanned(line.drop_last()).with_byte(10);
    let before = StreamModel { line: closed.line.cleared(), ..closed };
    lemma_terms_do_not_matter(before, stream, line_of(line, limit));
    assert(stream.scanned(line) == before.with_line(line_of(line, limit)));
    lemma_line_keeps_place(stream, line_of(line, limit));
}

proof fn lemma_line_keeps_place(stream: StreamModel, line: LineModel)
    ensures
        stream.with_line(line).line == stream.line,
        stream.with_line(line).ansi == stream.ansi,
{
}

/// The class of each line in turn, its number and what is kept of it.
pub open spec fn observed_of(stream: StreamModel, lines: Seq<Seq<u8>>, limit: nat) -> Seq<
    ObservedLine,
>
    decreases lines.len(),
{
    if lines.len() == 0 {
        Seq::empty()
    } else {
        let rest = lines.drop_last();
        let read = after_lines(stream, rest, limit);
        observed_of(stream, rest, limit).push(
            ObservedLine {
                number: one_more(read.line_number),
                line: line_of(lines.last(), limit),
                class: read.class_of(line_of(lines.last(), limit)),
            },
        )
    }
}

/// The stream after some lines.
pub open spec fn after_lines(stream: StreamModel, lines: Seq<Seq<u8>>, limit: nat) -> StreamModel
    decreases lines.len(),
{
    if lines.len() == 0 {
        stream
    } else {
        after_lines(stream, lines.drop_last(), limit).with_line(line_of(lines.last(), limit))
    }
}

proof fn lemma_scan_in_parts(stream: StreamModel, first: Seq<u8>, second: Seq<u8>)
    ensures
        stream.scanned(first).scanned(second) == stream.scanned(first + second),
    decreases second.len(),
{
    if second.len() == 0 {
        assert(first + second =~= first);
    } else {
        lemma_scan_in_parts(stream, first, second.drop_last());
        assert((first + second).drop_last() =~= first + second.drop_last());
        assert((first + second).last() == second.last());
    }
}

proof fn lemma_terms_do_not_matter(left: StreamModel, right: StreamModel, line: LineModel)
    requires
        left == (StreamModel { terms: left.terms, ..right }),
    ensures
        left.with_line(line) == (StreamModel {
            terms: left.with_line(line).terms,
            ..right.with_line(line)
        }),
        left.class_of(line) == right.class_of(line),
{
}

/// A stream reads its input line by line: the first line has the number one, each is given to both
/// collectors under its own number with its class, and nothing else is.
pub proof fn lemma_stream_reads_lines(
    stream: StreamModel,
    lines: Seq<Seq<u8>>,
    limit: nat,
)
    requires
        stream.line == LineState::fresh(limit, limit),
        stream.ansi == None::<AnsiState> || stream.ansi == Some(AnsiState::Ground),
        stream.line_number == 0,
        lines.len() < u64::MAX,
        forall|i: int|
            0 <= i < lines.len() ==> is_plain_line(#[trigger] lines[i]) && lines[i].len()
                <= usize::MAX,
    ensures
        ({
            let read = stream.scanned(text_of(lines));
            let observed = observed_of(stream, lines, limit);
            &&& read.line.total_bytes == 0
            &&& read.line_number == lines.len()
            &&& observed.len() == lines.len()
            &&& forall|i: int|
                0 <= i < lines.len() ==> (#[trigger] observed[i]).number == i + 1
                    && observed[i].line == line_of(lines[i], limit)
            &&& read.success == observed_lines(stream.success, observed)
            &&& read.failure == observed_lines(stream.failure, observed)
            &&& read.kind == stream.kind
            &&& read.kept == stream.kept
        }),
{
    lemma_stream_after_lines(stream, lines, limit);
    lemma_observed(stream, lines, limit);
}

proof fn lemma_stream_after_lines(stream: StreamModel, lines: Seq<Seq<u8>>, limit: nat)
    requires
        between_lines(stream, limit),
        forall|i: int|
            0 <= i < lines.len() ==> is_plain_line(#[trigger] lines[i]) && lines[i].len()
                <= usize::MAX,
    ensures
        ({
            let read = stream.scanned(text_of(lines));
            &&& between_lines(read, limit)
            &&& read == (StreamModel { terms: read.terms, ..after_lines(stream, lines, limit) })
        }),
    decreases lines.len(),
{
    if lines.len() > 0 {
        let rest = lines.drop_last();
        assert forall|i: int| 0 <= i < rest.len() implies is_plain_line(#[trigger] rest[i])
            && rest[i].len() <= usize::MAX by {
            assert(rest[i] == lines[i]);
        }
        lemma_stream_after_lines(stream, rest, limit);
        lemma_scan_in_parts(stream, text_of(rest), lines.last());
        assert(is_plain_line(lines[lines.len() - 1]));
        let read = stream.scanned(text_of(rest));
        lemma_whole_line(read, lines.last(), limit);
        lemma_terms_do_not_matter(
            read,
            after_lines(stream, rest, limit),
            line_of(lines.last(), limit),
        );
    }
}

proof fn lemma_observed(stream: StreamModel, lines: Seq<Seq<u8>>, limit: nat)
    requires
        stream.line_number == 0,
        lines.len() < u64::MAX,
    ensures
        ({
            let read = after_lines(stream, lines, limit);
            let observed = observed_of(stream, lines, limit);
            &&& read.line_number == lines.len()
            &&& observed.len() == lines.len()
            &&& forall|i: int|
                0 <= i < lines.len() ==> (#[trigger] observed[i]).number == i + 1
                    && observed[i].line == line_of(lines[i], limit)
            &&& read.success == observed_lines(stream.success, observed)
            &&& read.failure == observed_lines(stream.failure, observed)
            &&& read.kind == stream.kind
            &&& read.kept == stream.kept
            &&& read.transforms == stream.transforms
        }),
    decreases lines.len(),
{
    if lines.len() > 0 {
        let rest = lines.drop_last();
        lemma_observed(stream, rest, limit);
        let observed = observed_of(stream, lines, limit);
        assert(observed.drop_last() =~= observed_of(stream, rest, limit));
        assert forall|i: int| 0 <= i < lines.len() implies (#[trigger] observed[i]).number == i + 1
            && observed[i].line == line_of(lines[i], limit) by {
            if i < rest.len() {
                assert(observed[i] == observed_of(stream, rest, limit)[i]);
                assert(rest[i] == lines[i]);
            }
        }
    }
}

/// The line tells how a tool run ended.
pub open spec fn tells_tool_outcome(line: Seq<u8>) -> bool {
    ||| opens_exactly(line, "Process exited with code ")
    ||| opens_exactly(line, "Process running with session ID ")
    ||| opens_exactly(line, "Command exited with code ")
    ||| opens_exactly(line, "Command timed out")
}

/// The class that each kind of output gives a line, away from diagnostics.
pub open spec fn class_for(kind: ReducerModel, line: LineModel) -> EvidenceClass {
    match kind {
        ReducerModel::SearchSummary => crate::reducers::search::class_of(line.prefix),
        ReducerModel::DiffSummary => crate::reducers::diff::class_of(line.prefix),
        ReducerModel::TestSummary => crate::reducers::test::class_of(line.prefix),
        ReducerModel::BuildSummary => crate::reducers::build_output::class_of(line.prefix),
        ReducerModel::LogSummary => crate::reducers::log::class_of(line.prefix),
        ReducerModel::StatusSummary => crate::reducers::status::class_of(line.prefix),
        ReducerModel::ListSummary => crate::reducers::list::class_of(line.prefix),
        ReducerModel::LineFilter { drop, keep, .. } => {
            let dropped = exists|i: int|
                0 <= i < drop.len() && super::filter::pattern_holds(#[trigger] drop[i], line);
            let kept = exists|i: int|
                0 <= i < keep.len() && super::filter::pattern_holds(#[trigger] keep[i], line);
            if dropped {
                EvidenceClass::Noise
            } else if keep.len() == 0 || kept || line.truncated {
                EvidenceClass::Example
            } else {
                EvidenceClass::Noise
            }
        },
    }
}

/// What a line says by itself decides its class: first whether it tells how a tool ended, then
/// whether a filter of the command complains, then the kind of the output. Of the six lines that
/// follow a diagnostic none is dropped or taken for a mere example: they are its context.
pub proof fn lemma_class_of_each_line(stream: StreamModel, line: LineModel)
    ensures
        ({
            let class = stream.class_of(line);
            let own = class_for(stream.kind, line);
            let next = stream.with_line(line);
            &&& tells_tool_outcome(line.prefix) ==> class == EvidenceClass::Outcome
            &&& !tells_tool_outcome(line.prefix) && stream.transforms.names(line.prefix) ==> class
                == EvidenceClass::Diagnostic
            &&& !tells_tool_outcome(line.prefix) && !stream.transforms.names(line.prefix)
                && stream.diagnostic_context == 0 ==> class == own
            &&& !tells_tool_outcome(line.prefix) && own == EvidenceClass::Diagnostic ==> class
                == EvidenceClass::Diagnostic
            &&& !tells_tool_outcome(line.prefix) && !stream.transforms.names(line.prefix) && (own
                == EvidenceClass::Outcome || own == EvidenceClass::Structure) ==> class == own
            &&& stream.diagnostic_context > 0 ==> class != EvidenceClass::Noise && class
                != EvidenceClass::Example
            &&& class == EvidenceClass::Context ==> stream.diagnostic_context > 0
            &&& class == EvidenceClass::Diagnostic ==> next.diagnostic_context == 6
            &&& class != EvidenceClass::Diagnostic && stream.diagnostic_context > 0
                ==> next.diagnostic_context == stream.diagnostic_context - 1
            &&& class != EvidenceClass::Diagnostic && stream.diagnostic_context == 0
                ==> next.diagnostic_context == 0
        }),
{
    super::laws::lemma_tool_outcomes(line.prefix);
}

} // verus!
