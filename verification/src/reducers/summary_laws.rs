//! What a summary shows of the problems in its source.
use vstd::prelude::*;

use super::bounded::{first_bytes, less};
use super::bucket::{
    BucketModel, RecordModel, by_line, first_lines, held_bytes, lemma_by_line_orders,
    matching_record, not_shown, record_text, record_texts, section_heading,
};
use super::evidence::{
    CollectorModel, EvidenceClass, MarkerModel, ObservedLine, Sections, SourceSpan, observed_lines,
    structural_markers, term_samples,
};
use crate::bytes::{
    decimal, has_prefix, lemma_stands_in_longer, lemma_stands_in_whole, lit, stands_in,
    without_line_ending,
};
use super::stream::StreamModel;
use super::stream_laws::{is_plain_line, lemma_stream_reads_lines, observed_of, text_of};
use crate::rewrite::TransformPrograms;
use crate::rule_pack::model::{OutputPolicy, ReducerModel};

verus! {

/// How many of the lines have a class.
pub open spec fn class_count(lines: Seq<ObservedLine>, class: EvidenceClass) -> nat
    decreases lines.len(),
{
    if lines.len() == 0 {
        0
    } else {
        class_count(lines.drop_last(), class) + if lines.last().class == class {
            1nat
        } else {
            0nat
        }
    }
}

/// How many bytes the lines of a class take.
pub open spec fn class_size(lines: Seq<ObservedLine>, class: EvidenceClass) -> nat
    decreases lines.len(),
{
    if lines.len() == 0 {
        0
    } else {
        class_size(lines.drop_last(), class) + if lines.last().class == class {
            lines.last().line.prefix.len()
        } else {
            0
        }
    }
}

/// One of the records stands for a line: it has its text, and its span holds its number.
#[verifier::opaque]
pub open spec fn stands_for_line(records: Seq<RecordModel>, line: ObservedLine) -> bool {
    exists|i: int|
        0 <= i < records.len() && (#[trigger] records[i]).body == line.line.prefix
            && records[i].span.first_line <= line.number <= records[i].span.last_line
}

/// One of the lines has the class, the number and the text of a record.
#[verifier::opaque]
pub open spec fn comes_from(
    record: RecordModel,
    lines: Seq<ObservedLine>,
    class: EvidenceClass,
) -> bool {
    exists|i: int|
        0 <= i < lines.len() && (#[trigger] lines[i]).class == class && lines[i].number
            == record.span.first_line && lines[i].line.prefix == record.body
}

/// The lines are numbered from one on, and none is longer than the policy allows.
pub open spec fn are_whole_lines(lines: Seq<ObservedLine>, policy: OutputPolicy) -> bool {
    forall|i: int|
        0 <= i < lines.len() ==> (#[trigger] lines[i]).number == i + 1
            && lines[i].line.total_bytes <= policy.max_line_bytes
}

spec fn keeps_all(bucket: BucketModel, lines: Seq<ObservedLine>, class: EvidenceClass) -> bool {
    &&& bucket.class == class
    &&& bucket.tail.len() == 0
    &&& bucket.head.len() <= class_count(lines, class)
    &&& held_bytes(bucket.head) <= class_size(lines, class)
    &&& bucket.total == class_count(lines, class)
    &&& bucket.first_omitted is None && bucket.last_omitted is None
    &&& forall|i: int|
        0 <= i < lines.len() && (#[trigger] lines[i]).class == class ==> stands_for_line(
            bucket.head,
            lines[i],
        )
    &&& forall|j: int|
        0 <= j < bucket.head.len() ==> (#[trigger] bucket.head[j]).span.first_line
            <= bucket.head[j].span.last_line <= lines.len()
    &&& forall|j: int|
        0 <= j < bucket.head.len() ==> comes_from(#[trigger] bucket.head[j], lines, class)
}

proof fn lemma_still_comes_from(
    record: RecordModel,
    other: RecordModel,
    lines: Seq<ObservedLine>,
    next: ObservedLine,
    class: EvidenceClass,
)
    requires
        comes_from(record, lines, class),
        other.body == record.body,
        other.span.first_line == record.span.first_line,
    ensures
        comes_from(other, lines.push(next), class),
{
    reveal(comes_from);
    let i = choose|i: int|
        0 <= i < lines.len() && (#[trigger] lines[i]).class == class && lines[i].number
            == record.span.first_line && lines[i].line.prefix == record.body;
    assert(lines.push(next)[i] == lines[i]);
}

proof fn lemma_still_stands(
    head: Seq<RecordModel>,
    after: Seq<RecordModel>,
    line: ObservedLine,
)
    requires
        stands_for_line(head, line),
        head.len() <= after.len(),
        forall|j: int|
            0 <= j < head.len() ==> (#[trigger] after[j]).body == head[j].body
                && after[j].span.first_line == head[j].span.first_line && head[j].span.last_line
                <= after[j].span.last_line,
    ensures
        stands_for_line(after, line),
{
    reveal(stands_for_line);
    let j = choose|j: int|
        0 <= j < head.len() && (#[trigger] head[j]).body == line.line.prefix
            && head[j].span.first_line <= line.number <= head[j].span.last_line;
    assert(after[j].body == line.line.prefix);
}

proof fn lemma_matching(records: Seq<RecordModel>, body: Seq<u8>, from: int)
    requires
        0 <= from,
    ensures
        matching_record(records, body, from) matches Some(index) ==> from <= index < records.len()
            && records[index].body == body,
    decreases records.len() - from,
{
    if from < records.len() {
        lemma_matching(records, body, from + 1);
    }
}

proof fn lemma_held_after_update(records: Seq<RecordModel>, index: int, record: RecordModel)
    requires
        0 <= index < records.len(),
        record.body == records[index].body,
    ensures
        held_bytes(records.update(index, record)) == held_bytes(records),
    decreases records.len(),
{
    let updated = records.update(index, record);
    if index < records.len() - 1 {
        lemma_held_after_update(records.drop_last(), index, record);
        assert(updated.drop_last() =~= records.drop_last().update(index, record));
    } else {
        assert(updated.drop_last() =~= records.drop_last());
    }
}

proof fn lemma_bucket_keeps(
    bucket: BucketModel,
    lines: Seq<ObservedLine>,
    next: ObservedLine,
    budget: nat,
)
    requires
        keeps_all(bucket, lines, next.class),
        bucket.head_budget == budget,
        next.number == lines.len() + 1,
        class_count(lines, next.class) < 64,
        class_size(lines, next.class) + next.line.prefix.len() <= budget,
        lines.len() < u64::MAX,
    ensures
        ({
            let span = SourceSpan { first_line: next.number, last_line: next.number };
            let after = bucket.observed(span, next.line.prefix);
            &&& keeps_all(after, lines.push(next), next.class)
            &&& after.head_budget == budget
        }),
{
    let span = SourceSpan { first_line: next.number, last_line: next.number };
    let body = next.line.prefix;
    let after = bucket.observed(span, body);
    let all = lines.push(next);
    let class = next.class;
    assert(all.drop_last() =~= lines);
    lemma_matching(bucket.records(), body, 0);
    assert(bucket.records() =~= bucket.head);
    match bucket.repeated(body) {
        Some(index) => {
            lemma_held_after_update(
                bucket.head,
                index,
                super::bucket::seen_again(bucket.head[index], next.number),
            );
            assert(after.head[index].body == body);
            assert(bucket.head[index].span.first_line <= bucket.head[index].span.last_line);
            assert(after.head[index].span.first_line <= next.number);
            assert(stands_for_line(after.head, next)) by {
                reveal(stands_for_line);
            }
        },
        None => {
            let record = RecordModel { span, body, repeats: 1 };
            assert(after.head == bucket.head.push(record));
            assert(after.head.drop_last() =~= bucket.head);
            assert(after.head[bucket.head.len() as int] == record);
            assert(stands_for_line(after.head, next)) by {
                reveal(stands_for_line);
            }
            assert(all[lines.len() as int] == next);
            assert(comes_from(record, all, class)) by {
                reveal(comes_from);
            }
        },
    }
    assert forall|j: int| 0 <= j < bucket.head.len() implies (#[trigger] after.head[j]).body
        == bucket.head[j].body && after.head[j].span.first_line == bucket.head[j].span.first_line
        && bucket.head[j].span.last_line <= after.head[j].span.last_line <= all.len()
        && after.head[j].span.first_line <= after.head[j].span.last_line by {
        assert(bucket.head[j].span.last_line <= lines.len());
    }
    assert forall|i: int| 0 <= i < all.len() && (#[trigger] all[i]).class
        == class implies stands_for_line(after.head, all[i]) by {
        if i < lines.len() {
            assert(lines[i] == all[i]);
            lemma_still_stands(bucket.head, after.head, lines[i]);
        }
    }
    assert forall|j: int| 0 <= j < after.head.len() implies comes_from(
        #[trigger] after.head[j],
        all,
        class,
    ) by {
        if j < bucket.head.len() {
            assert(comes_from(bucket.head[j], lines, class));
            lemma_still_comes_from(bucket.head[j], after.head[j], lines, next, class);
        }
    }
}

proof fn lemma_bucket_untouched(
    bucket: BucketModel,
    lines: Seq<ObservedLine>,
    next: ObservedLine,
    class: EvidenceClass,
)
    requires
        keeps_all(bucket, lines, class),
        next.class != class,
    ensures
        keeps_all(bucket, lines.push(next), class),
{
    let all = lines.push(next);
    assert(all.drop_last() =~= lines);
    assert forall|i: int| 0 <= i < all.len() && (#[trigger] all[i]).class
        == class implies stands_for_line(bucket.head, all[i]) by {
        assert(lines[i] == all[i]);
    }
    assert forall|j: int| 0 <= j < bucket.head.len() implies comes_from(
        #[trigger] bucket.head[j],
        all,
        class,
    ) by {
        lemma_still_comes_from(bucket.head[j], bucket.head[j], lines, next, class);
    }
}

proof fn lemma_other_buckets_stay(
    collector: CollectorModel,
    line: ObservedLine,
)
    requires
        collector.buckets.len() == 5,
        line.line.total_bytes <= collector.policy.max_line_bytes,
    ensures
        ({
            let next = collector.observed(line.number, line.line, line.class);
            let span = SourceSpan { first_line: line.number, last_line: line.number };
            &&& next.buckets.len() == 5
            &&& next.policy == collector.policy
            &&& next.buckets[0] == if line.class == EvidenceClass::Diagnostic {
                collector.buckets[0].observed(span, line.line.prefix)
            } else {
                collector.buckets[0]
            }
            &&& next.buckets[1] == if line.class == EvidenceClass::Outcome {
                collector.buckets[1].observed(span, line.line.prefix)
            } else {
                collector.buckets[1]
            }
        }),
{
}

proof fn lemma_buckets_keep_lines(
    family: Seq<char>,
    policy: OutputPolicy,
    lines: Seq<ObservedLine>,
)
    requires
        are_whole_lines(lines, policy),
        lines.len() < u64::MAX,
    ensures
        ({
            let collector = observed_lines(CollectorModel::fresh(family, policy), lines);
            &&& collector.buckets.len() == 5
            &&& collector.policy == policy
            &&& fits(lines, policy, EvidenceClass::Diagnostic) ==> keeps_all(
                collector.buckets[0],
                lines,
                EvidenceClass::Diagnostic,
            ) && collector.buckets[0].head_budget == policy.max_output_bytes as nat / 2
            &&& fits(lines, policy, EvidenceClass::Outcome) ==> keeps_all(
                collector.buckets[1],
                lines,
                EvidenceClass::Outcome,
            ) && collector.buckets[1].head_budget == policy.max_output_bytes as nat / 2
        }),
    decreases lines.len(),
{
    if lines.len() > 0 {
        let rest = lines.drop_last();
        let next = lines.last();
        assert(rest.push(next) =~= lines);
        assert(lines[lines.len() - 1] == next);
        assert forall|i: int| 0 <= i < rest.len() implies (#[trigger] rest[i]).number == i + 1
            && rest[i].line.total_bytes <= policy.max_line_bytes by {
            assert(rest[i] == lines[i]);
        }
        lemma_buckets_keep_lines(family, policy, rest);
        let collector = observed_lines(CollectorModel::fresh(family, policy), rest);
        lemma_other_buckets_stay(collector, next);
        let budget = policy.max_output_bytes as nat / 2;
        if fits(lines, policy, EvidenceClass::Diagnostic) {
            if next.class == EvidenceClass::Diagnostic {
                lemma_bucket_keeps(collector.buckets[0], rest, next, budget);
            } else {
                lemma_bucket_untouched(
                    collector.buckets[0],
                    rest,
                    next,
                    EvidenceClass::Diagnostic,
                );
            }
        }
        if fits(lines, policy, EvidenceClass::Outcome) {
            if next.class == EvidenceClass::Outcome {
                lemma_bucket_keeps(collector.buckets[1], rest, next, budget);
            } else {
                lemma_bucket_untouched(collector.buckets[1], rest, next, EvidenceClass::Outcome);
            }
        }
    } else {
        assert(CollectorModel::fresh(family, policy).buckets[0].head =~= Seq::empty());
    }
}

/// The lines of a class are few and short enough to be remembered one and all.
pub open spec fn fits(
    lines: Seq<ObservedLine>,
    policy: OutputPolicy,
    class: EvidenceClass,
) -> bool {
    class_count(lines, class) <= 64 && class_size(lines, class) <= policy.max_output_bytes as nat
        / 2
}

/// Every diagnostic of a source is remembered, with its text and its line number, as long as there
/// are not too many; the same holds of the lines that state the outcome. None is remembered that
/// the source does not have, and the number of them is right.
pub proof fn lemma_problems_are_remembered(
    family: Seq<char>,
    policy: OutputPolicy,
    lines: Seq<ObservedLine>,
)
    requires
        are_whole_lines(lines, policy),
        lines.len() < u64::MAX,
    ensures
        ({
            let collector = observed_lines(CollectorModel::fresh(family, policy), lines);
            let diagnostics = collector.buckets[0];
            let outcomes = collector.buckets[1];
            &&& fits(lines, policy, EvidenceClass::Diagnostic) ==> {
                &&& diagnostics.class == EvidenceClass::Diagnostic
                &&& diagnostics.total == class_count(lines, EvidenceClass::Diagnostic)
                &&& forall|i: int|
                    0 <= i < lines.len() && (#[trigger] lines[i]).class
                        == EvidenceClass::Diagnostic ==> stands_for_line(
                        diagnostics.records(),
                        lines[i],
                    )
                &&& forall|j: int|
                    0 <= j < diagnostics.records().len() ==> comes_from(
                        #[trigger] diagnostics.records()[j],
                        lines,
                        EvidenceClass::Diagnostic,
                    )
            }
            &&& fits(lines, policy, EvidenceClass::Outcome) ==> {
                &&& outcomes.class == EvidenceClass::Outcome
                &&& outcomes.total == class_count(lines, EvidenceClass::Outcome)
                &&& forall|i: int|
                    0 <= i < lines.len() && (#[trigger] lines[i]).class == EvidenceClass::Outcome
                        ==> stands_for_line(outcomes.records(), lines[i])
            }
        }),
{
    lemma_buckets_keep_lines(family, policy, lines);
    let collector = observed_lines(CollectorModel::fresh(family, policy), lines);
    if fits(lines, policy, EvidenceClass::Diagnostic) {
        assert(collector.buckets[0].records() =~= collector.buckets[0].head);
    }
    if fits(lines, policy, EvidenceClass::Outcome) {
        assert(collector.buckets[1].records() =~= collector.buckets[1].head);
    }
}

/// How a line is shown in a section: its number, and its text.
pub open spec fn shown_as(record: RecordModel, newline: Seq<u8>) -> Seq<u8> {
    let text = without_line_ending(record.body);
    let number = lit("L") + decimal(record.span.first_line as nat);
    let span = if record.span.first_line == record.span.last_line {
        number
    } else {
        number + lit("-") + decimal(record.span.last_line as nat)
    };
    if record.repeats > 1 {
        span + lit(": ") + text + lit(" [repeated ") + decimal(record.repeats as nat) + lit(
            " times]",
        ) + newline
    } else {
        span + lit(": ") + text + newline
    }
}

proof fn lemma_shown_as(record: RecordModel, newline: Seq<u8>)
    ensures
        record_text(record, newline) == shown_as(record, newline),
{
    assert(record_text(record, newline) =~= shown_as(record, newline));
}

proof fn lemma_texts_hold_each(records: Seq<RecordModel>, newline: Seq<u8>, place: int)
    requires
        0 <= place < records.len(),
    ensures
        stands_in(record_texts(records, newline), record_text(records[place], newline)),
    decreases records.len(),
{
    let part = record_text(records[place], newline);
    let rest = record_texts(records.drop_last(), newline);
    let last = record_text(records.last(), newline);
    if place == records.len() - 1 {
        lemma_stands_in_whole(part);
        lemma_stands_in_longer(rest, part, Seq::empty(), part);
    } else {
        lemma_texts_hold_each(records.drop_last(), newline, place);
        lemma_stands_in_longer(Seq::empty(), rest, last, part);
    }
}

proof fn lemma_not_shown_keeps(records: Seq<RecordModel>, shown: Seq<u64>, record: RecordModel)
    requires
        records.contains(record),
        !shown.contains(record.span.first_line),
    ensures
        not_shown(records, shown).contains(record),
    decreases records.len(),
{
    let at = choose|at: int| 0 <= at < records.len() && records[at] == record;
    let rest = records.drop_last();
    let kept = not_shown(records, shown);
    if at == records.len() - 1 {
        assert(kept[kept.len() - 1] == record);
    } else {
        assert(rest[at] == record);
        assert(rest.contains(record));
        lemma_not_shown_keeps(rest, shown, record);
        let before = not_shown(rest, shown);
        let i = choose|i: int| 0 <= i < before.len() && before[i] == record;
        assert(kept[i] == record);
    }
}

proof fn lemma_complete_section_shows(
    bucket: BucketModel,
    newline: Seq<u8>,
    shown: Seq<u64>,
    limit: nat,
    record: RecordModel,
)
    requires
        bucket.records().contains(record),
        bucket.total > 0,
        bucket.complete_section(newline, shown).len() <= limit,
        !shown.contains(record.span.first_line),
    ensures
        stands_in(bucket.rendered(limit, newline, shown).body, record_text(record, newline)),
        has_prefix(
            bucket.rendered(limit, newline, shown).body,
            section_heading(bucket.class, newline),
        ),
        bucket.rendered(limit, newline, shown).body == bucket.complete_section(newline, shown),
{
    reveal(BucketModel::rendered);
    let records = by_line(bucket.records());
    lemma_by_line_orders(bucket.records());
    assert(records.contains(record)) by {
        broadcast use vstd::seq_lib::group_to_multiset_ensures;

        assert(bucket.records().to_multiset().contains(record));
    }
    let candidates = not_shown(records, shown);
    lemma_not_shown_keeps(records, shown, record);
    let place = choose|i: int| 0 <= i < candidates.len() && candidates[i] == record;
    lemma_texts_hold_each(candidates, newline, place);
    let heading = section_heading(bucket.class, newline);
    let texts = record_texts(candidates, newline);
    let whole = bucket.complete_section(newline, shown);
    let note = super::bucket::omission_note(
        bucket.class,
        super::bucket::fewer(bucket.total, records.len()),
        bucket.first_omitted,
        bucket.last_omitted,
        newline,
    );
    lemma_stands_in_longer(heading, texts, note, record_text(record, newline));
    assert(whole.subrange(0, heading.len() as int) =~= heading);
}

proof fn lemma_rendered_fits(bucket: BucketModel, limit: nat, newline: Seq<u8>, shown: Seq<u64>)
    ensures
        bucket.rendered(limit, newline, shown).body.len() <= limit,
        bucket.complete_section(newline, shown).len() <= limit ==> bucket.rendered(
            limit,
            newline,
            shown,
        ).body.len() <= bucket.complete_section(newline, shown).len(),
{
    reveal(BucketModel::rendered);
}

/// The sections begin with the outcome and the diagnostics, in this order.
proof fn lemma_sections_begin(
    collector: CollectorModel,
    available: nat,
    shown: Seq<u64>,
    samples: Seq<u8>,
    markers: Seq<u8>,
)
    ensures
        ({
            let outcome = collector.buckets[1].rendered(available, collector.newline, shown).body;
            let left = less(available, outcome.len());
            let diagnostics = collector.buckets[0].rendered(left, collector.newline, shown).body;
            has_prefix(
                collector.sections(available, shown, samples, markers).body,
                outcome + diagnostics,
            )
        }),
{
    let newline = collector.newline;
    let none = Sections { body: Seq::empty(), retained: shown, available };
    let outcome = none.with_bucket(collector.buckets[1], newline, shown);
    let diagnostics = outcome.with_bucket(collector.buckets[0], newline, shown);
    let ranked = diagnostics.with_bucket(collector.buckets[3], newline, shown);
    let sampled = Sections { body: ranked.body + samples, ..ranked };
    let structured = sampled.with_bucket(collector.buckets[2], newline, shown);
    let noted = if markers.len() <= structured.available {
        Sections {
            body: structured.body + markers,
            available: less(structured.available, markers.len()),
            ..structured
        }
    } else {
        structured
    };
    let whole = noted.with_bucket(collector.buckets[4], newline, shown);
    let start = diagnostics.body;
    assert(start =~= collector.buckets[1].rendered(available, newline, shown).body
        + collector.buckets[0].rendered(outcome.available, newline, shown).body);
    assert(ranked.body.subrange(0, start.len() as int) =~= start);
    assert(sampled.body.subrange(0, start.len() as int) =~= start);
    assert(structured.body.subrange(0, start.len() as int) =~= start);
    assert(noted.body.subrange(0, start.len() as int) =~= start);
    assert(whole.body.subrange(0, start.len() as int) =~= start);
}

/// The room that a summary needs to show its opening lines, the samples, the outcome and all
/// remembered diagnostics.
pub open spec fn needed_room(
    collector: CollectorModel,
    recovery: Option<MarkerModel>,
    registered: Seq<bool>,
) -> nat {
    let shown = first_lines(collector.samples());
    collector.opening(collector.total_lines, registered, recovery).len() + term_samples(
        collector.samples(),
        collector.newline,
    ).len() + collector.buckets[1].complete_section(collector.newline, shown).len()
        + collector.buckets[0].complete_section(collector.newline, shown).len()
}

/// A summary that leaves lines out shows every remembered diagnostic, with its line number and its
/// text, where there is room for the outcome and the diagnostics; one that is among the samples of
/// the terms is shown there. A success is no reason to leave a diagnostic out.
pub proof fn lemma_summary_shows_diagnostics(
    collector: CollectorModel,
    recovery: Option<MarkerModel>,
    registered: Seq<bool>,
    success: bool,
    record: RecordModel,
)
    requires
        collector.buckets.len() == 5,
        collector.buckets[0].total > 0,
        collector.buckets[0].class == EvidenceClass::Diagnostic,
        collector.buckets[0].records().contains(record),
        collector.omitted_lines(recovery, registered, success) > 0,
        needed_room(collector, recovery, registered) <= collector.policy.max_output_bytes,
    ensures
        ({
            let summary = collector.summary(recovery, registered, success);
            ||| first_lines(collector.samples()).contains(record.span.first_line)
            ||| stands_in(summary, shown_as(record, collector.newline)) && stands_in(
                summary,
                lit("== diagnostics ==") + collector.newline,
            )
        }),
{
    let newline = collector.newline;
    let shown = first_lines(collector.samples());
    if !shown.contains(record.span.first_line) {
        let (before, diagnostics, rest) = lemma_summary_holds_diagnostics(
            collector,
            recovery,
            registered,
            success,
            record,
        );
        let part = record_text(record, newline);
        lemma_stands_in_longer(before, diagnostics, rest, part);
        lemma_shown_as(record, newline);
        let heading = section_heading(EvidenceClass::Diagnostic, newline);
        lemma_heading(newline);
        lemma_stands_in_whole(heading);
        lemma_stands_in_longer(
            Seq::empty(),
            heading,
            diagnostics.skip(heading.len() as int),
            heading,
        );
        assert(diagnostics =~= heading + diagnostics.skip(heading.len() as int));
        lemma_stands_in_longer(before, diagnostics, rest, heading);
    }
}

proof fn lemma_cut_after(
    opening: Seq<u8>,
    start: Seq<u8>,
    body: Seq<u8>,
    limit: nat,
) -> (rest: Seq<u8>)
    requires
        has_prefix(body, start),
        opening.len() + start.len() <= limit,
    ensures
        first_bytes(opening + body, limit) == opening + start + rest,
{
    let cut = first_bytes(opening + body, limit);
    let rest = cut.subrange((opening.len() + start.len()) as int, cut.len() as int);
    assert(body.subrange(0, start.len() as int) == start);
    assert(cut =~= opening + start + rest) by {
        assert forall|i: int| 0 <= i < cut.len() implies cut[i] == (opening + start + rest)[i] by {
            if opening.len() <= i < opening.len() + start.len() {
                assert(body.subrange(0, start.len() as int)[i - opening.len()] == start[i
                    - opening.len()]);
            }
        }
    }
    rest
}

proof fn lemma_summary_holds_diagnostics(
    collector: CollectorModel,
    recovery: Option<MarkerModel>,
    registered: Seq<bool>,
    success: bool,
    record: RecordModel,
) -> (parts: (Seq<u8>, Seq<u8>, Seq<u8>))
    requires
        collector.buckets.len() == 5,
        collector.buckets[0].total > 0,
        collector.buckets[0].records().contains(record),
        collector.omitted_lines(recovery, registered, success) > 0,
        needed_room(collector, recovery, registered) <= collector.policy.max_output_bytes,
        !first_lines(collector.samples()).contains(record.span.first_line),
    ensures
        collector.summary(recovery, registered, success) == parts.0 + parts.1 + parts.2,
        stands_in(parts.1, record_text(record, collector.newline)),
        has_prefix(parts.1, section_heading(collector.buckets[0].class, collector.newline)),
{
    let newline = collector.newline;
    let shown = first_lines(collector.samples());
    let limit = collector.output_limit(recovery, registered, success);
    assert(limit == collector.policy.max_output_bytes);
    let reserved = collector.opening(collector.total_lines, registered, recovery);
    let samples = term_samples(collector.samples(), newline);
    let available = less(less(limit, reserved.len()), samples.len());
    let markers = structural_markers(
        collector.noise_lines,
        collector.truncated_lines,
        newline,
        recovery is None,
    );
    let sections = collector.sections(available, shown, samples, markers);
    lemma_sections_begin(collector, available, shown, samples, markers);
    lemma_rendered_fits(collector.buckets[1], available, newline, shown);
    let outcome = collector.buckets[1].rendered(available, newline, shown).body;
    let left = less(available, outcome.len());
    lemma_complete_section_shows(collector.buckets[0], newline, shown, left, record);
    let diagnostics = collector.buckets[0].rendered(left, newline, shown).body;
    assert(collector.summary_sections(recovery, registered, success) == sections) by {
        reveal(CollectorModel::summary_sections);
    }
    let omitted = collector.omitted_lines(recovery, registered, success);
    let opening = collector.opening(omitted, registered, recovery);
    super::evidence::lemma_fewer_omitted_is_shorter(collector, omitted, registered, recovery);
    let rest = lemma_cut_after(opening, outcome + diagnostics, sections.body, limit);
    let summary = collector.summary(recovery, registered, success);
    assert(summary == first_bytes(opening + sections.body, limit));
    assert(opening + (outcome + diagnostics) + rest =~= (opening + outcome) + diagnostics + rest);
    (opening + outcome, diagnostics, rest)
}

proof fn lemma_heading(newline: Seq<u8>)
    ensures
        section_heading(EvidenceClass::Diagnostic, newline) == lit("== diagnostics ==") + newline,
{
    reveal_strlit("== ");
    reveal_strlit("diagnostics");
    reveal_strlit(" ==");
    reveal_strlit("== diagnostics ==");
    vstd::utf8::is_ascii_chars_encode_utf8("== "@);
    vstd::utf8::is_ascii_chars_encode_utf8("diagnostics"@);
    vstd::utf8::is_ascii_chars_encode_utf8(" =="@);
    vstd::utf8::is_ascii_chars_encode_utf8("== diagnostics =="@);
    assert("== diagnostics =="@ =~= "== "@ + "diagnostics"@ + " =="@);
    crate::text::lemma_utf8_concat("== "@, "diagnostics"@);
    crate::text::lemma_utf8_concat("== "@ + "diagnostics"@, " =="@);
}

proof fn lemma_count_lines(family: Seq<char>, policy: OutputPolicy, lines: Seq<ObservedLine>)
    requires
        lines.len() < u64::MAX,
    ensures
        ({
            let collector = observed_lines(CollectorModel::fresh(family, policy), lines);
            &&& collector.total_lines == lines.len()
            &&& collector.family == family
            &&& collector.policy == policy
            &&& collector.noise_lines <= lines.len()
            &&& collector.noise_lines >= class_count(lines, EvidenceClass::Noise)
        }),
    decreases lines.len(),
{
    if lines.len() > 0 {
        lemma_count_lines(family, policy, lines.drop_last());
    }
}

/// The name of each kind of output in its summary.
pub open spec fn kind_name(kind: ReducerModel) -> Seq<char> {
    match kind {
        ReducerModel::SearchSummary => "search"@,
        ReducerModel::DiffSummary => "diff"@,
        ReducerModel::TestSummary => "test"@,
        ReducerModel::BuildSummary => "build"@,
        ReducerModel::LogSummary => "log"@,
        ReducerModel::StatusSummary => "status"@,
        ReducerModel::ListSummary => "list"@,
        ReducerModel::LineFilter { .. } => "line filter"@,
    }
}

/// The collector of a stream after some lines: the one for a success or the one for a failure.
pub open spec fn collected(
    kind: ReducerModel,
    success_policy: OutputPolicy,
    failure_policy: OutputPolicy,
    transforms: TransformPrograms,
    lines: Seq<Seq<u8>>,
    success: bool,
) -> CollectorModel {
    let stream = StreamModel::fresh(kind, success_policy, failure_policy, transforms);
    let limit = stream.line.prefix_limit;
    observed_lines(
        if success {
            stream.success
        } else {
            stream.failure
        },
        observed_of(stream, lines, limit),
    )
}

/// The output of a long stream is the summary of its lines, by the policy for a success where it is
/// one, and else by that for a failure. The summary opens with the kind of the output and the number
/// of lines.
pub proof fn lemma_long_output_is_summarized(
    kind: ReducerModel,
    success_policy: OutputPolicy,
    failure_policy: OutputPolicy,
    transforms: TransformPrograms,
    lines: Seq<Seq<u8>>,
    success: bool,
    recovery: Option<MarkerModel>,
)
    requires
        lines.len() < u64::MAX,
        forall|i: int|
            0 <= i < lines.len() ==> is_plain_line(#[trigger] lines[i]) && lines[i].len()
                <= usize::MAX,
        text_of(lines).len() > success_policy.max_output_bytes,
        text_of(lines).len() > failure_policy.max_output_bytes,
    ensures
        ({
            let stream = StreamModel::fresh(kind, success_policy, failure_policy, transforms);
            let read = stream.fed(text_of(lines));
            let collector = collected(
                kind,
                success_policy,
                failure_policy,
                transforms,
                lines,
                success,
            );
            &&& read.result(success, recovery) == collector.summary(
                recovery,
                read.terms.matched,
                success,
            )
            &&& collector.policy == if success {
                success_policy
            } else {
                failure_policy
            }
            &&& collector.total_lines == lines.len()
            &&& stands_in(
                collector.opening(0, read.terms.matched, recovery),
                lit("[yarp summary: ") + vstd::utf8::encode_utf8(kind_name(kind)) + lit(
                    "; source_lines=",
                ) + decimal(lines.len()),
            )
        }),
{
    let stream = StreamModel::fresh(kind, success_policy, failure_policy, transforms);
    let limit = stream.line.prefix_limit;
    let text = text_of(lines);
    lemma_stream_reads_lines(stream, lines, limit);
    let scanned = stream.scanned(text);
    let read = stream.fed(text);
    assert(read.kept is None);
    let observed = observed_of(stream, lines, limit);
    lemma_count_lines(kind_name(kind), success_policy, observed);
    lemma_count_lines(kind_name(kind), failure_policy, observed);
    let collector = collected(kind, success_policy, failure_policy, transforms, lines, success);
    assert(collector.family == kind_name(kind));
    lemma_opening_names(collector, 0, read.terms.matched, recovery);
}

/// The opening lines name the kind of the output and the number of its lines.
proof fn lemma_opening_names(
    collector: CollectorModel,
    omitted: u64,
    registered: Seq<bool>,
    recovery: Option<MarkerModel>,
)
    ensures
        stands_in(
            collector.opening(omitted, registered, recovery),
            lit("[yarp summary: ") + vstd::utf8::encode_utf8(collector.family) + lit(
                "; source_lines=",
            ) + decimal(collector.total_lines as nat),
        ),
{
    let part = lit("[yarp summary: ") + vstd::utf8::encode_utf8(collector.family) + lit(
        "; source_lines=",
    ) + decimal(collector.total_lines as nat);
    lemma_stands_in_whole(part);
    let opening = collector.opening(omitted, registered, recovery);
    assert(opening =~= part + opening.skip(part.len() as int));
    lemma_stands_in_longer(Seq::empty(), part, opening.skip(part.len() as int), part);
}

/// A line of the output that is taken for a diagnostic is in the summary of the output, with its
/// number and its text, as long as the diagnostics are few and there is room for them; where it
/// names a term that is always reported, it may be among the samples instead.
pub proof fn lemma_failures_are_in_the_output(
    kind: ReducerModel,
    success_policy: OutputPolicy,
    failure_policy: OutputPolicy,
    transforms: TransformPrograms,
    lines: Seq<Seq<u8>>,
    success: bool,
    recovery: Option<MarkerModel>,
    place: int,
)
    requires
        lines.len() < u64::MAX,
        forall|i: int|
            0 <= i < lines.len() ==> is_plain_line(#[trigger] lines[i]) && lines[i].len()
                <= success_policy.max_line_bytes && lines[i].len()
                <= failure_policy.max_line_bytes,
        text_of(lines).len() > success_policy.max_output_bytes,
        text_of(lines).len() > failure_policy.max_output_bytes,
        0 <= place < lines.len(),
        ({
            let stream = StreamModel::fresh(kind, success_policy, failure_policy, transforms);
            let observed = observed_of(stream, lines, stream.line.prefix_limit);
            let policy = if success {
                success_policy
            } else {
                failure_policy
            };
            let matched = stream.fed(text_of(lines)).terms.matched;
            let collector = collected(
                kind,
                success_policy,
                failure_policy,
                transforms,
                lines,
                success,
            );
            &&& observed[place].class == EvidenceClass::Diagnostic
            &&& fits(observed, policy, EvidenceClass::Diagnostic)
            &&& collector.omitted_lines(recovery, matched, success) > 0
            &&& needed_room(collector, recovery, matched) <= policy.max_output_bytes
        }),
    ensures
        ({
            let stream = StreamModel::fresh(kind, success_policy, failure_policy, transforms);
            let output = stream.fed(text_of(lines)).result(success, recovery);
            let collector = collected(
                kind,
                success_policy,
                failure_policy,
                transforms,
                lines,
                success,
            );
            exists|record: RecordModel| #[trigger]
                is_record_of(record, lines[place], (place + 1) as u64) && (first_lines(
                    collector.samples(),
                ).contains(record.span.first_line) || stands_in(
                    output,
                    shown_as(record, collector.newline),
                ))
        }),
{
    let stream = StreamModel::fresh(kind, success_policy, failure_policy, transforms);
    let limit = stream.line.prefix_limit;
    let observed = observed_of(stream, lines, limit);
    let policy = if success {
        success_policy
    } else {
        failure_policy
    };
    lemma_long_output_is_summarized(
        kind,
        success_policy,
        failure_policy,
        transforms,
        lines,
        success,
        recovery,
    );
    lemma_stream_reads_lines(stream, lines, limit);
    let collector = collected(kind, success_policy, failure_policy, transforms, lines, success);
    assert forall|i: int| 0 <= i < observed.len() implies (#[trigger] observed[i]).number == i + 1
        && observed[i].line.total_bytes <= policy.max_line_bytes by {
        assert(lines[i].len() <= policy.max_line_bytes);
    }
    assert(are_whole_lines(observed, policy));
    lemma_problems_are_remembered(kind_name(kind), policy, observed);
    let records = collector.buckets[0].records();
    assert(stands_for_line(records, observed[place]));
    reveal(stands_for_line);
    let at = choose|i: int|
        0 <= i < records.len() && (#[trigger] records[i]).body == observed[place].line.prefix
            && records[i].span.first_line <= observed[place].number
            <= records[i].span.last_line;
    let record = records[at];
    assert(records.contains(record));
    assert(lines[place].len() <= limit);
    assert(observed[place].line.prefix == lines[place]);
    lemma_buckets_keep_lines(kind_name(kind), policy, observed);
    lemma_count_of_one(observed, EvidenceClass::Diagnostic, place);
    assert(collector.buckets[0].total > 0);
    assert(is_record_of(record, lines[place], (place + 1) as u64));
    lemma_summary_shows_diagnostics(
        collector,
        recovery,
        stream.fed(text_of(lines)).terms.matched,
        success,
        record,
    );
}

proof fn lemma_count_of_one(lines: Seq<ObservedLine>, class: EvidenceClass, place: int)
    requires
        0 <= place < lines.len(),
        lines[place].class == class,
    ensures
        class_count(lines, class) > 0,
    decreases lines.len(),
{
    if place < lines.len() - 1 {
        assert(lines.drop_last()[place] == lines[place]);
        lemma_count_of_one(lines.drop_last(), class, place);
    }
}

/// The record has the text of a line, and its span holds the number of it.
pub open spec fn is_record_of(record: RecordModel, line: Seq<u8>, number: u64) -> bool {
    record.body == line && record.span.first_line <= number <= record.span.last_line
}

} // verus!
