//! What holds of the lines that are remembered, and of how they are shown.
use vstd::prelude::*;

use super::bounded::{
    LineModel, first_bytes, line_marker, line_omission, line_room, shortened_line,
};
use super::bucket::{
    BucketModel, RecordModel, earliest, latest, matching_record, not_shown, omission_note,
    record_text, seen_again,
};
use super::evidence::{
    CollectorModel, EvidenceClass, MarkerModel, SourceSpan, group_of, omission_text, one_per_line, recovery_text,
    reported_terms, structural_markers, summary_prefix, terms_suffix,
};
use super::wording::lemma_letters;
use crate::bytes::{decimal, has_infix, lit, occurs_at, occurs_first_at, without_line_ending};

verus! {

proof fn lemma_first_match(records: Seq<RecordModel>, body: Seq<u8>, from: int)
    requires
        0 <= from,
    ensures
        match matching_record(records, body, from) {
            Some(at) => from <= at < records.len() && records[at].body == body,
            None => forall|i: int| from <= i < records.len() ==> (#[trigger] records[i]).body
                != body,
        },
    decreases records.len() - from,
{
    if from < records.len() && records[from].body != body {
        lemma_first_match(records, body, from + 1);
    }
}

/// The record is remembered.
pub open spec fn remembers(bucket: BucketModel, record: RecordModel) -> bool {
    bucket.head.contains(record) || bucket.tail.contains(record)
}

/// Every line that comes to a class is counted. One that repeats a remembered line is not kept
/// again: the remembered one counts once more and reaches to the new line.
pub proof fn lemma_repeated_lines_are_counted(
    bucket: BucketModel,
    span: SourceSpan,
    body: Seq<u8>,
)
    requires
        bucket.total < u64::MAX,
        bucket.repeated(body) is Some,
    ensures
        ({
            let after = bucket.observed(span, body);
            let at = bucket.repeated(body)->Some_0;
            &&& 0 <= at < bucket.head.len() + bucket.tail.len()
            &&& after.total == bucket.total + 1
            &&& after.head.len() == bucket.head.len()
            &&& after.tail.len() == bucket.tail.len()
            &&& (bucket.head + bucket.tail)[at].body == body
            &&& (after.head + after.tail)[at].body == body
            &&& (after.head + after.tail)[at].span.first_line == (bucket.head
                + bucket.tail)[at].span.first_line
            &&& (after.head + after.tail)[at].span.last_line == span.last_line
            &&& (bucket.head + bucket.tail)[at].repeats < u64::MAX ==> (after.head
                + after.tail)[at].repeats == (bucket.head + bucket.tail)[at].repeats + 1
            &&& forall|i: int|
                0 <= i < bucket.head.len() + bucket.tail.len() && i != at ==> #[trigger] (after.head
                    + after.tail)[i] == (bucket.head + bucket.tail)[i]
        }),
{
    lemma_first_match(bucket.records(), body, 0);
}

/// A line that comes to a class for the first time is remembered, with its own line number and as
/// seen once, unless it alone is longer than what may be remembered. It is counted either way.
pub proof fn lemma_new_lines_are_remembered(bucket: BucketModel, span: SourceSpan, body: Seq<u8>)
    requires
        bucket.total < u64::MAX,
        bucket.repeated(body) is None,
    ensures
        ({
            let after = bucket.observed(span, body);
            let record = RecordModel { span, body, repeats: 1 };
            &&& after.total == bucket.total + 1
            &&& body.len() <= bucket.tail_budget ==> remembers(after, record)
            &&& !remembers(after, record) && !remembers(bucket, record) ==> after.first_omitted
                is Some && after.first_omitted->Some_0 <= span.first_line && after.last_omitted
                is Some && after.last_omitted->Some_0 >= span.last_line
        }),
{
    let record = RecordModel { span, body, repeats: 1 };
    let counted = BucketModel {
        total: super::bucket::one_more(bucket.total),
        fingerprints: bucket.observed(span, body).fingerprints,
        ..bucket
    };
    lemma_room_keeps(counted, body.len());
    let after = bucket.observed(span, body);
    lemma_room_keeps(
        BucketModel {
            total: super::bucket::one_more(bucket.total),
            fingerprints: if !bucket.fingerprints.contains(super::bucket::fingerprint_of(body))
                && bucket.fingerprints.len() < 128 {
                bucket.fingerprints.push(super::bucket::fingerprint_of(body))
            } else {
                bucket.fingerprints
            },
            ..bucket
        },
        body.len(),
    );
    if after.head.len() > bucket.head.len() {
        assert(after.head[after.head.len() - 1] == record);
    } else if body.len() <= bucket.tail_budget {
        assert(after.tail[after.tail.len() - 1] == record);
    }
}

proof fn lemma_room_keeps(bucket: BucketModel, need: nat)
    ensures
        bucket.with_room(need).head == bucket.head,
        bucket.with_room(need).total == bucket.total,
        bucket.with_room(need).fingerprints == bucket.fingerprints,
        bucket.with_room(need).tail.len() <= bucket.tail.len(),
        bucket.with_room(need).tail == bucket.tail.skip(
            bucket.tail.len() - bucket.with_room(need).tail.len(),
        ),
    decreases bucket.tail.len(),
{
    if bucket.tail.len() > 0 && (bucket.tail.len() >= 64 || super::bucket::held_bytes(bucket.tail)
        + need > bucket.tail_budget) {
        let fewer = (BucketModel { tail: bucket.tail.drop_first(), ..bucket }).without(
            bucket.tail[0].span,
        );
        lemma_room_keeps(fewer, need);
        let left = bucket.with_room(need).tail;
        assert(left =~= bucket.tail.skip(bucket.tail.len() - left.len()));
    } else {
        assert(bucket.tail.skip(0) =~= bucket.tail);
    }
}

/// The range of lines that were left out grows to hold each of them.
pub proof fn lemma_omitted_range_grows(bucket: BucketModel, span: SourceSpan)
    ensures
        ({
            let after = bucket.without(span);
            &&& after.first_omitted is Some && after.first_omitted->Some_0 <= span.first_line
            &&& after.last_omitted is Some && after.last_omitted->Some_0 >= span.last_line
            &&& bucket.first_omitted is Some ==> after.first_omitted->Some_0
                <= bucket.first_omitted->Some_0
            &&& bucket.last_omitted is Some ==> after.last_omitted->Some_0
                >= bucket.last_omitted->Some_0
            &&& after.first_omitted == Some(span.first_line) || after.first_omitted
                == bucket.first_omitted
            &&& after.last_omitted == Some(span.last_line) || after.last_omitted
                == bucket.last_omitted
            &&& after.head == bucket.head && after.tail == bucket.tail
        }),
        earliest(None, span.first_line) == Some(span.first_line),
        latest(None, span.last_line) == Some(span.last_line),
{
}

/// A line is shown behind its number, and one that came more than once with the last number and how
/// often it came.
pub proof fn lemma_lines_are_shown_with_numbers(record: RecordModel, newline: Seq<u8>, line: u64)
    ensures
        record.span.first_line == record.span.last_line && record.repeats <= 1 ==> record_text(
            record,
            newline,
        ) == lit("L") + decimal(record.span.first_line as nat) + lit(": ") + without_line_ending(
            record.body,
        ) + newline,
        record.span.first_line != record.span.last_line && record.repeats > 1 ==> record_text(
            record,
            newline,
        ) == lit("L") + decimal(record.span.first_line as nat) + lit("-") + decimal(
            record.span.last_line as nat,
        ) + lit(": ") + without_line_ending(record.body) + lit(" [repeated ") + decimal(
            record.repeats as nat,
        ) + lit(" times]") + newline,
        record.repeats < u64::MAX ==> seen_again(record, line).repeats == record.repeats + 1,
        seen_again(record, line).span.first_line == record.span.first_line,
        seen_again(record, line).span.last_line == line,
        seen_again(record, line).body == record.body,
{
    let none = Seq::<u8>::empty();
    let number = lit("L") + decimal(record.span.first_line as nat);
    let body = without_line_ending(record.body);
    assert(number + none + lit(": ") + body + none + newline =~= number + lit(": ") + body
        + newline);
    assert(record.span.first_line != record.span.last_line && record.repeats > 1 ==> record_text(
        record,
        newline,
    ) =~= lit("L") + decimal(record.span.first_line as nat) + lit("-") + decimal(
        record.span.last_line as nat,
    ) + lit(": ") + body + lit(" [repeated ") + decimal(record.repeats as nat) + lit(" times]")
        + newline);
}

/// A line that is shown elsewhere is not shown again; every other one is.
pub proof fn lemma_lines_are_shown_once(records: Seq<RecordModel>, shown: Seq<u64>, i: int)
    requires
        0 <= i < records.len(),
    ensures
        !shown.contains(records[i].span.first_line) ==> not_shown(records, shown).contains(
            records[i],
        ),
        not_shown(records, shown).contains(records[i]) ==> !shown.contains(
            records[i].span.first_line,
        ),
    decreases records.len(),
{
    let front = records.drop_last();
    let last = records.last();
    let rest = not_shown(front, shown);
    let all = not_shown(records, shown);
    lemma_not_shown_holds(records, shown);
    if i < front.len() {
        lemma_lines_are_shown_once(front, shown, i);
        assert(front[i] == records[i]);
        if rest.contains(records[i]) {
            let k = choose|k: int| 0 <= k < rest.len() && rest[k] == records[i];
            assert(all[k] == records[i]);
        }
    } else if !shown.contains(last.span.first_line) {
        assert(all[all.len() - 1] == last);
    }
}

proof fn lemma_not_shown_holds(records: Seq<RecordModel>, shown: Seq<u64>)
    ensures
        forall|k: int|
            0 <= k < not_shown(records, shown).len() ==> !shown.contains(
                (#[trigger] not_shown(records, shown)[k]).span.first_line,
            ),
    decreases records.len(),
{
    if records.len() > 0 {
        lemma_not_shown_holds(records.drop_last(), shown);
        let rest = not_shown(records.drop_last(), shown);
        let all = not_shown(records, shown);
        assert forall|k: int| 0 <= k < all.len() implies !shown.contains(
            (#[trigger] all[k]).span.first_line,
        ) by {
            if k < rest.len() {
                assert(all[k] == rest[k]);
            }
        }
    }
}

/// What is said of lines that were left out: how many, of which kind, and from where to where.
/// Nothing is said where none was.
pub proof fn lemma_omissions_are_told(
    class: EvidenceClass,
    omitted: u64,
    first: u64,
    last: u64,
    truncated: u64,
    newline: Seq<u8>,
)
    ensures
        omission_note(class, 0, Some(first), Some(last), newline).len() == 0,
        omitted > 0 && class == EvidenceClass::Diagnostic ==> omission_note(
            class,
            omitted,
            Some(first),
            Some(last),
            newline,
        ) == lit("[yarp: omitted ") + decimal(omitted as nat) + lit(" ") + lit("diagnostics")
            + lit(" line(s)") + (lit("; source lines ") + decimal(first as nat) + lit(":")
            + decimal(last as nat)) + lit("]") + newline,
        omission_text(0, 0) == lit("exact output archived"),
        omitted > 0 ==> omission_text(omitted, 0) == lit("omitted ") + decimal(omitted as nat)
            + lit(" line(s)"),
        truncated > 0 ==> omission_text(omitted, truncated) == lit("omitted ") + decimal(
            omitted as nat,
        ) + lit(" line(s), truncated ") + decimal(truncated as nat) + lit(" line(s)"),
        structural_markers(omitted, truncated, newline, false).len() == 0,
        omitted > 0 ==> structural_markers(omitted, 0, newline, true) == lit("[yarp: omitted ")
            + decimal(omitted as nat) + lit(" routine line(s)]") + newline,
        truncated > 0 ==> structural_markers(0, truncated, newline, true) == lit(
            "[yarp: truncated ",
        ) + decimal(truncated as nat) + lit(" retained line(s)]") + newline,
        structural_markers(0, 0, newline, true).len() == 0,
{
    let none = Seq::<u8>::empty();
    assert(structural_markers(omitted, 0, newline, true) =~= if omitted > 0 {
        lit("[yarp: omitted ") + decimal(omitted as nat) + lit(" routine line(s)]") + newline
    } else {
        none
    });
    assert(structural_markers(0, truncated, newline, true) =~= if truncated > 0 {
        lit("[yarp: truncated ") + decimal(truncated as nat) + lit(" retained line(s)]") + newline
    } else {
        none
    });
}

/// Output that is archived is referred to, with its source and how complete it is, and a search for
/// it is offered.
pub proof fn lemma_archived_output_is_referred_to(
    newline: Seq<u8>,
    omitted: u64,
    truncated: u64,
    marker: MarkerModel,
)
    ensures
        ({
            let reference = vstd::utf8::encode_utf8(marker.archive_ref);
            recovery_text(newline, omitted, truncated, Some(marker)) == lit("[yarp: ")
                + omission_text(omitted, truncated) + lit("; ref=") + reference + lit("; ")
                + vstd::utf8::encode_utf8(marker.source) + lit(" ") + vstd::utf8::encode_utf8(
                marker.completeness,
            ) + lit("]") + newline + lit("Search omitted output: yarp search ") + reference + lit(
                " 'term|alternate'",
            ) + newline
        }),
        recovery_text(newline, omitted, truncated, None) == lit("[yarp: ") + omission_text(
            omitted,
            truncated,
        ) + lit("]") + newline,
{
    reveal(recovery_text);
}

/// A summary begins with what the output was and how many lines it had. Where nothing is left out
/// and nothing is archived, that is all that stands before its sections.
pub proof fn lemma_summaries_begin_with_counts(
    family: Seq<char>,
    total: u64,
    suffix: Seq<u8>,
    newline: Seq<u8>,
)
    ensures
        summary_prefix(family, total, suffix, 0, 0, None, newline) == lit("[yarp summary: ")
            + vstd::utf8::encode_utf8(family) + lit("; source_lines=") + decimal(total as nat)
            + suffix + lit("]") + newline,
{
    let none = Seq::<u8>::empty();
    assert(summary_prefix(family, total, suffix, 0, 0, None, newline) =~= lit("[yarp summary: ")
        + vstd::utf8::encode_utf8(family) + lit("; source_lines=") + decimal(total as nat) + suffix
        + lit("]") + newline);
}

/// The names of the five terms that are looked for.
pub open spec fn term_name(index: int) -> Seq<u8> {
    if index == 0 {
        lit("failure")
    } else if index == 1 {
        lit("panic")
    } else if index == 2 {
        lit("error")
    } else if index == 3 {
        lit("warning")
    } else {
        lit("test result")
    }
}

/// The terms that were met are listed; where none was, no list is begun.
pub proof fn lemma_met_terms_are_listed(registered: Seq<bool>, index: int)
    requires
        registered.len() == 5,
        0 <= index < 5,
        forall|i: int| 0 <= i < 5 && i != index ==> !#[trigger] registered[i],
    ensures
        !registered[index] ==> terms_suffix(registered).len() == 0,
        registered[index] ==> terms_suffix(registered) == lit("; source_terms=") + term_name(index),
{
    reveal(terms_suffix);
    reveal_with_fuel(reported_terms, 6);
    let none = Seq::<u8>::empty();
    let terms = super::classify::registered_terms();
    assert(terms[0] == "failure" && terms[1] == "panic" && terms[2] == "error" && terms[3]
        == "warning" && terms[4] == "test result");
    reveal_strlit("failure");
    reveal_strlit("panic");
    reveal_strlit("error");
    reveal_strlit("warning");
    reveal_strlit("test result");
    lemma_letters(none, "failure");
    lemma_letters(none, "panic");
    lemma_letters(none, "error");
    lemma_letters(none, "warning");
    lemma_letters(none, "test result");
    assert(registered[0] || !registered[0]);
    assert(registered[1] || !registered[1]);
    assert(registered[2] || !registered[2]);
    assert(registered[3] || !registered[3]);
    assert(registered[4] || !registered[4]);
}

/// Matches and problems are grouped by what stands before the first colon.
pub proof fn lemma_groups_of_matches(name: Seq<u8>, rest: Seq<u8>)
    requires
        forall|i: int| 0 <= i < name.len() ==> #[trigger] name[i] != 58,
        rest.len() > 0,
        rest.last() != 10,
    ensures
        group_of("search"@, name.push(58) + rest) == Some(name),
        group_of("build"@, name.push(58) + rest) == Some(name),
        group_of("log"@, name.push(58) + rest) is None,
        group_of("diff"@, name.push(58) + rest) is None,
        group_of("status"@, name.push(58) + rest) is None,
{
    reveal_strlit(":");
    reveal_strlit("search");
    reveal_strlit("build");
    reveal_strlit("test");
    reveal_strlit("list");
    reveal_strlit("log");
    reveal_strlit("diff");
    reveal_strlit("status");
    vstd::utf8::is_ascii_chars_encode_utf8(":"@);
    let whole = name.push(58) + rest;
    let colon = lit(":");
    assert(colon.len() == 1 && colon[0] == 58);
    assert(whole.last() == rest.last());
    assert(without_line_ending(whole) == whole);
    let at = name.len() as int;
    assert(whole.subrange(at, at + 1) =~= colon);
    assert(occurs_at(whole, colon, at));
    assert forall|earlier: int| 0 <= earlier < at implies !occurs_at(whole, colon, earlier) by {
        assert(whole[earlier] == name[earlier]);
        assert(whole.subrange(earlier, earlier + 1)[0] == whole[earlier]);
    }
    assert(occurs_first_at(whole, colon, at));
    crate::bytes::lemma_first_occurrence(whole, colon, at);
    assert(has_infix(whole, colon));
    assert(whole.subrange(0, at) =~= name);
    assert("search"@[0] == 's' && "build"@[0] == 'b' && "test"@[0] == 't' && "list"@[1] == 'i'
        && "log"@.len() == 3 && "diff"@[0] == 'd' && "status"@[1] == 't' && "search"@[1] == 'e'
        && "list"@.len() == 4 && "diff"@.len() == 4 && "list"@[0] == 'l' && "test"@.len() == 4);
}

/// The output of a command that failed, or that tells of a problem, may use the whole budget. That of
/// a quiet success is kept to 512 bytes where its opening fits.
pub proof fn lemma_budget_of_a_summary(
    collector: CollectorModel,
    recovery: Option<MarkerModel>,
    registered: Seq<bool>,
)
    ensures
        collector.output_limit(recovery, registered, false) == collector.policy.max_output_bytes,
        collector.buckets[0].total > 0 ==> collector.output_limit(recovery, registered, true)
            == collector.policy.max_output_bytes,
        collector.output_limit(recovery, registered, true) <= collector.policy.max_output_bytes,
        collector.output_limit(recovery, registered, true) != collector.policy.max_output_bytes
            ==> collector.output_limit(recovery, registered, true) == 512,
{
}

/// A line that is cut on both sides keeps as much of its beginning as of its end: the room is shared
/// between them, but for one byte.
pub proof fn lemma_both_ends_of_a_cut_line(line: LineModel, limit: nat)
    requires
        line.truncated,
        line.prefix.len() >= limit,
        line.tail.len() >= limit,
        line.line_ending.len() <= limit <= usize::MAX,
    ensures
        ({
            let omitted = line_omission(line.total_bytes as nat, limit, line.line_ending.len());
            let room = line_room(limit, line.line_ending.len(), omitted);
            let half = room / 2;
            let other = (room - room / 2) as nat;
            &&& half <= other <= half + 1
            &&& shortened_line(line, limit, true) == line.prefix.take(half as int) + line_marker(
                omitted,
            ) + line.tail.subrange(
                line.tail.len() - line.line_ending.len() - other,
                line.tail.len() - line.line_ending.len(),
            ) + line.line_ending
            &&& shortened_line(line, limit, false) == line.prefix.take(room as int) + line_marker(
                omitted,
            ) + line.line_ending
        }),
{
    let omitted = line_omission(line.total_bytes as nat, limit, line.line_ending.len());
    let room = line_room(limit, line.line_ending.len(), omitted);
    let half = room / 2;
    let other = (room - half) as nat;
    assert(first_bytes(line.prefix, half) =~= line.prefix.take(half as int));
    assert(first_bytes(line.prefix, room) =~= line.prefix.take(room as int));
    if room == 0 {
        let at = line.tail.len() - line.line_ending.len();
        assert(line.tail.subrange(at - other, at) =~= Seq::empty());
    }
}

/// No two of the samples that are shown begin on one line.
pub proof fn lemma_one_sample_for_each_line(records: Seq<RecordModel>, i: int)
    requires
        0 <= i < one_per_line(records).len() - 1,
    ensures
        one_per_line(records)[i].span.first_line != one_per_line(records)[i + 1].span.first_line,
    decreases records.len(),
{
    let rest = one_per_line(records.drop_last());
    let all = one_per_line(records);
    if i < rest.len() - 1 {
        lemma_one_sample_for_each_line(records.drop_last(), i);
        assert(all[i] == rest[i] && all[i + 1] == rest[i + 1]);
    }
}

} // verus!
