//! Evidence from classified lines, kept within record and byte budgets.
use vstd::prelude::*;

use super::bounded::{first_bytes, less, render_line, rendered_line, saturated, LineModel, LineView};
use super::bucket::{
    by_line, fewer, first_lines, lemma_by_line_orders, one_more, place, record_fingerprint,
    record_texts, render_record, Bucket, BucketModel, EvidenceRecord, RecordModel,
};
use super::classify::{contains_ascii_insensitive, has_registered_diagnostic};
use crate::bytes::{
    append, append_decimal, append_text, copy, find, find_folded, lit, same_bytes,
    strip_line_ending,
};
use crate::rule_pack::model::OutputPolicy;
use crate::text::same_text;

verus! {

/// How much a line tells about the outcome of a command.
#[derive(Clone, Copy, Debug, PartialEq, Eq, Structural)]
pub enum EvidenceClass {
    Outcome,
    Diagnostic,
    Structure,
    Context,
    Example,
    Noise,
}

impl EvidenceClass {
    /// The heading of the class.
    pub open spec fn title_text(self) -> Seq<char> {
        match self {
            EvidenceClass::Outcome => "outcome"@,
            EvidenceClass::Diagnostic => "diagnostics"@,
            EvidenceClass::Structure => "structure"@,
            EvidenceClass::Context => "diagnostic context"@,
            EvidenceClass::Example => "examples"@,
            EvidenceClass::Noise => "noise"@,
        }
    }

    /// The place of the class among the kept classes.
    pub open spec fn slot(self) -> Option<int> {
        match self {
            EvidenceClass::Diagnostic => Some(0),
            EvidenceClass::Outcome => Some(1),
            EvidenceClass::Structure => Some(2),
            EvidenceClass::Context => Some(3),
            EvidenceClass::Example => Some(4),
            EvidenceClass::Noise => None,
        }
    }

    pub(crate) fn index(self) -> (index: Option<usize>)
        ensures
            index is None <==> self.slot() is None,
            index matches Some(i) ==> self.slot() == Some(i as int),
    {
        match self {
            EvidenceClass::Diagnostic => Some(0),
            EvidenceClass::Outcome => Some(1),
            EvidenceClass::Structure => Some(2),
            EvidenceClass::Context => Some(3),
            EvidenceClass::Example => Some(4),
            EvidenceClass::Noise => None,
        }
    }

    pub(crate) fn title(self) -> (title: &'static str)
        ensures
            title@ == self.title_text(),
    {
        match self {
            EvidenceClass::Outcome => "outcome",
            EvidenceClass::Diagnostic => "diagnostics",
            EvidenceClass::Structure => "structure",
            EvidenceClass::Context => "diagnostic context",
            EvidenceClass::Example => "examples",
            EvidenceClass::Noise => "noise",
        }
    }
}

/// The source lines that a record stands for.
#[derive(Clone, Copy, Debug, PartialEq, Eq, Structural)]
pub struct SourceSpan {
    pub first_line: u64,
    pub last_line: u64,
}

/// Where the exact output can be found again.
#[derive(Clone, Copy, Debug)]
pub struct RecoveryMarker<'a> {
    pub archive_ref: &'a str,
    pub source: &'a str,
    pub completeness: &'a str,
}

/// The contents of a [`RecoveryMarker`].
#[verifier::ext_equal]
pub struct MarkerModel {
    pub archive_ref: Seq<char>,
    pub source: Seq<char>,
    pub completeness: Seq<char>,
}

impl View for RecoveryMarker<'_> {
    type V = MarkerModel;

    open spec fn view(&self) -> MarkerModel {
        MarkerModel {
            archive_ref: self.archive_ref@,
            source: self.source@,
            completeness: self.completeness@,
        }
    }
}

/// The contents of a marker, if there is one.
pub open spec fn marker_model(recovery: Option<RecoveryMarker<'_>>) -> Option<MarkerModel> {
    match recovery {
        Some(marker) => Some(marker@),
        None => None,
    }
}

/// ASCII white space.
pub open spec fn is_space(byte: u8) -> bool {
    byte == 32 || byte == 9 || byte == 10 || byte == 12 || byte == 13
}

/// The run without white space at the end of `value`.
pub open spec fn closing_word(value: Seq<u8>) -> Seq<u8>
    decreases value.len(),
{
    if value.len() == 0 || is_space(value.last()) {
        Seq::empty()
    } else {
        closing_word(value.drop_last()).push(value.last())
    }
}

/// The last word of `value`.
pub open spec fn last_word(value: Seq<u8>) -> Seq<u8>
    decreases value.len(),
{
    if value.len() > 0 && is_space(value.last()) {
        last_word(value.drop_last())
    } else {
        closing_word(value)
    }
}

/// The part of an example line that names its group: a searched file, a test, a directory.
pub open spec fn group_of(family: Seq<char>, body: Seq<u8>) -> Option<Seq<u8>> {
    let body = crate::bytes::without_line_ending(body);
    if family == "search"@ || family == "build"@ {
        Some(crate::bytes::before_first(body, lit(":")))
    } else if family == "test"@ {
        Some(crate::bytes::before_first(body, lit("...")))
    } else if family == "list"@ {
        let word = last_word(body);
        if crate::bytes::has_infix(word, lit("/")) {
            Some(crate::bytes::before_first(word, lit("/")))
        } else {
            None
        }
    } else {
        None
    }
}

/// The key under which an example's group is remembered.
pub open spec fn group_key(family: Seq<char>, body: Seq<u8>) -> Option<Seq<u8>> {
    match group_of(family, body) {
        Some(key) if key.len() > 0 => Some(first_bytes(key, 128)),
        _ => None,
    }
}

/// The remembered key with this fingerprint.
pub open spec fn known_key(
    keys: Seq<((u64, u64, usize), Seq<u8>)>,
    fingerprint: (u64, u64, usize),
    from: int,
) -> Option<Seq<u8>>
    decreases keys.len() - from,
{
    if from < 0 || from >= keys.len() {
        None
    } else if keys[from].0 == fingerprint {
        Some(keys[from].1)
    } else {
        known_key(keys, fingerprint, from + 1)
    }
}

/// The short form of a record around a diagnostic term.
pub open spec fn excerpt(record: RecordModel, term: Seq<u8>) -> RecordModel {
    let body = crate::bytes::without_line_ending(record.body);
    if body.len() <= 32 {
        record
    } else {
        let position = if crate::bytes::has_infix(
            crate::bytes::folded(body),
            crate::bytes::folded(term),
        ) {
            crate::bytes::first_occurrence(
                crate::bytes::folded(body),
                crate::bytes::folded(term),
            ) as nat
        } else {
            0
        };
        let start = less(position, 24);
        let end = if start + 32 < body.len() {
            start + 32
        } else {
            body.len()
        };
        RecordModel {
            body: (if start > 0 {
                lit("[...] ")
            } else {
                Seq::empty()
            }) + body.subrange(start as int, end as int) + (if end < body.len() {
                lit(" [...]")
            } else {
                Seq::empty()
            }),
            ..record
        }
    }
}

/// The records without those that begin on the line of the record before.
pub open spec fn one_per_line(records: Seq<RecordModel>) -> Seq<RecordModel>
    decreases records.len(),
{
    if records.len() == 0 {
        Seq::empty()
    } else {
        let rest = one_per_line(records.drop_last());
        if rest.len() > 0 && rest.last().span.first_line == records.last().span.first_line {
            rest
        } else {
            rest.push(records.last())
        }
    }
}

/// The records that are there.
pub open spec fn present(records: Seq<Option<RecordModel>>) -> Seq<RecordModel>
    decreases records.len(),
{
    if records.len() == 0 {
        Seq::empty()
    } else {
        match records.last() {
            Some(record) => present(records.drop_last()).push(record),
            None => present(records.drop_last()),
        }
    }
}

/// The reported diagnostic terms among the first `count`, separated by commas.
pub open spec fn reported_terms(registered: Seq<bool>, count: nat) -> Seq<u8>
    decreases count,
{
    if count == 0 {
        Seq::empty()
    } else {
        let rest = reported_terms(registered, (count - 1) as nat);
        let term = lit(super::classify::registered_terms()[count - 1]);
        if !registered[count - 1] {
            rest
        } else if rest.len() == 0 {
            term
        } else {
            rest + lit(",") + term
        }
    }
}

/// The part of the summary line that lists the reported terms.
#[verifier::opaque]
pub open spec fn terms_suffix(registered: Seq<bool>) -> Seq<u8> {
    let terms = reported_terms(registered, 5);
    if terms.len() == 0 {
        Seq::empty()
    } else {
        lit("; source_terms=") + terms
    }
}

/// What the summary says about the lines that it does not show in full.
pub open spec fn omission_text(omitted: u64, truncated: u64) -> Seq<u8> {
    if omitted == 0 && truncated == 0 {
        lit("exact output archived")
    } else if truncated == 0 {
        lit("omitted ") + crate::bytes::decimal(omitted as nat) + lit(" line(s)")
    } else {
        lit("omitted ") + crate::bytes::decimal(omitted as nat) + lit(" line(s), truncated ")
            + crate::bytes::decimal(truncated as nat) + lit(" line(s)")
    }
}

/// The lines that tell how to recover the exact output.
#[verifier::opaque]
pub open spec fn recovery_text(
    newline: Seq<u8>,
    omitted: u64,
    truncated: u64,
    recovery: Option<MarkerModel>,
) -> Seq<u8> {
    match recovery {
        Some(marker) => lit("[yarp: ") + omission_text(omitted, truncated) + lit("; ref=")
            + vstd::utf8::encode_utf8(marker.archive_ref) + lit("; ") + vstd::utf8::encode_utf8(
            marker.source,
        ) + lit(" ") + vstd::utf8::encode_utf8(marker.completeness) + lit("]") + newline + lit(
            "Search omitted output: yarp search ",
        ) + vstd::utf8::encode_utf8(marker.archive_ref) + lit(" 'term|alternate'") + newline,
        None => lit("[yarp: ") + omission_text(omitted, truncated) + lit("]") + newline,
    }
}

/// The opening lines of a summary.
pub open spec fn summary_prefix(
    family: Seq<char>,
    total_lines: u64,
    suffix: Seq<u8>,
    omitted: u64,
    truncated: u64,
    recovery: Option<MarkerModel>,
    newline: Seq<u8>,
) -> Seq<u8> {
    lit("[yarp summary: ") + vstd::utf8::encode_utf8(family) + lit("; source_lines=")
        + crate::bytes::decimal(total_lines as nat) + suffix + lit("]") + newline + (if omitted > 0
        || truncated > 0 || recovery is Some {
        recovery_text(newline, omitted, truncated, recovery)
    } else {
        Seq::empty()
    })
}

/// The notes on routine and shortened lines.
pub open spec fn structural_markers(
    noise_lines: u64,
    truncated_lines: u64,
    newline: Seq<u8>,
    shown: bool,
) -> Seq<u8> {
    if !shown {
        Seq::empty()
    } else {
        (if noise_lines > 0 {
            lit("[yarp: omitted ") + crate::bytes::decimal(noise_lines as nat) + lit(
                " routine line(s)]",
            ) + newline
        } else {
            Seq::empty()
        }) + (if truncated_lines > 0 {
            lit("[yarp: truncated ") + crate::bytes::decimal(truncated_lines as nat) + lit(
                " retained line(s)]",
            ) + newline
        } else {
            Seq::empty()
        })
    }
}

/// The samples of the diagnostic terms.
pub open spec fn term_samples(records: Seq<RecordModel>, newline: Seq<u8>) -> Seq<u8> {
    if records.len() == 0 {
        Seq::empty()
    } else {
        lit("== source term samples ==") + newline + record_texts(records, newline)
    }
}

/// The sections so far, the lines that they show and the room that is left.
#[verifier::ext_equal]
pub struct Sections {
    pub body: Seq<u8>,
    pub retained: Seq<u64>,
    pub available: nat,
}

impl Sections {
    /// The sections after one more class.
    pub open spec fn with_bucket(
        self,
        bucket: BucketModel,
        newline: Seq<u8>,
        shown: Seq<u64>,
    ) -> Sections {
        let rendered = bucket.rendered(self.available, newline, shown);
        Sections {
            body: self.body + rendered.body,
            retained: self.retained + rendered.retained,
            available: less(self.available, rendered.body.len()),
        }
    }
}

/// What an [`EvidenceCollector`] remembers.
#[verifier::ext_equal]
pub struct CollectorModel {
    pub family: Seq<char>,
    pub policy: OutputPolicy,
    pub buckets: Seq<BucketModel>,
    pub total_lines: u64,
    pub noise_lines: u64,
    pub newline: Seq<u8>,
    pub newline_observed: bool,
    pub truncated_lines: u64,
    pub priority_terms: Seq<Option<RecordModel>>,
    pub example_keys: Seq<((u64, u64, usize), Seq<u8>)>,
}

/// The class that has its place at `index`.
pub open spec fn class_at(index: int) -> EvidenceClass {
    if index == 0 {
        EvidenceClass::Diagnostic
    } else if index == 1 {
        EvidenceClass::Outcome
    } else if index == 2 {
        EvidenceClass::Structure
    } else if index == 3 {
        EvidenceClass::Context
    } else {
        EvidenceClass::Example
    }
}

impl CollectorModel {
    /// A collector before the first line.
    pub open spec fn fresh(family: Seq<char>, policy: OutputPolicy) -> CollectorModel {
        CollectorModel {
            family,
            policy,
            buckets: Seq::new(
                5,
                |i: int| BucketModel::fresh(class_at(i), policy.max_output_bytes as nat),
            ),
            total_lines: 0,
            noise_lines: 0,
            newline: lit("\n"),
            newline_observed: false,
            truncated_lines: 0,
            priority_terms: Seq::new(5, |i: int| None),
            example_keys: Seq::empty(),
        }
    }

    /// The records, keys and term samples stay within their budgets.
    pub open spec fn bounded(self) -> bool {
        &&& self.buckets.len() == 5
        &&& forall|i: int| 0 <= i < 5 ==> (#[trigger] self.buckets[i]).bounded()
        &&& forall|i: int| 0 <= i < 5 ==> (#[trigger] self.buckets[i]).class == class_at(i)
        &&& self.priority_terms.len() == 5
        &&& self.example_keys.len() <= 128
        &&& forall|i: int|
            0 <= i < self.example_keys.len() ==> (#[trigger] self.example_keys[i]).1.len() <= 128
    }

    /// The collector after record `body` joined its class and, where it names a diagnostic
    /// term for the first time, the term samples.
    pub open spec fn with_evidence(
        self,
        span: SourceSpan,
        body: Seq<u8>,
        class: EvidenceClass,
        named: bool,
    ) -> CollectorModel {
        CollectorModel {
            priority_terms: if named {
                with_samples(self.priority_terms, RecordModel { span, body, repeats: 1 })
            } else {
                self.priority_terms
            },
            buckets: match class.slot() {
                Some(index) => self.buckets.update(index, self.buckets[index].observed(span, body)),
                None => self.buckets,
            },
            ..self
        }
    }

    /// The collector after one more example: a repetition is counted, a further line of a
    /// known group is routine, anything else is kept.
    pub open spec fn with_example(self, span: SourceSpan, body: Seq<u8>) -> CollectorModel {
        match self.buckets[4].repeated(body) {
            Some(index) => CollectorModel {
                buckets: self.buckets.update(
                    4,
                    self.buckets[4].with_repeat(index, span.last_line),
                ),
                ..self
            },
            None => match group_key(self.family, body) {
                None => self.with_evidence(span, body, EvidenceClass::Example, false),
                Some(key) => {
                    let fingerprint = super::bucket::fingerprint_of(key);
                    let known = known_key(self.example_keys, fingerprint, 0);
                    if known == Some(key) {
                        CollectorModel { noise_lines: one_more(self.noise_lines), ..self }
                    } else if known is None && self.example_keys.len() < 128 {
                        (CollectorModel {
                            example_keys: self.example_keys.push((fingerprint, key)),
                            ..self
                        }).with_evidence(span, body, EvidenceClass::Example, false)
                    } else {
                        self.with_evidence(span, body, EvidenceClass::Example, false)
                    }
                },
            },
        }
    }

    /// The collector with the line counted and its line ending noted.
    pub open spec fn counted(self, line: LineModel, class: EvidenceClass) -> CollectorModel {
        CollectorModel {
            total_lines: one_more(self.total_lines),
            newline: if !self.newline_observed && line.line_ending.len() > 0 {
                line.line_ending
            } else {
                self.newline
            },
            newline_observed: self.newline_observed || line.line_ending.len() > 0,
            noise_lines: if class == EvidenceClass::Noise {
                one_more(self.noise_lines)
            } else {
                self.noise_lines
            },
            ..self
        }
    }

    /// The collector after one more line.
    pub open spec fn observed(
        self,
        line_number: u64,
        line: LineModel,
        class: EvidenceClass,
    ) -> CollectorModel {
        let named = super::classify::names_registered_term(line.prefix) || (line.truncated
            && super::classify::names_registered_term(line.ending_bytes()));
        let counted = self.counted(line, class);
        if class == EvidenceClass::Noise && !named {
            counted
        } else {
            let limit = self.policy.max_line_bytes as nat;
            let body = rendered_line(
                line,
                limit,
                class == EvidenceClass::Diagnostic || class == EvidenceClass::Example || class
                    == EvidenceClass::Noise,
            );
            let span = SourceSpan { first_line: line_number, last_line: line_number };
            let cut = CollectorModel {
                truncated_lines: if line.total_bytes > limit {
                    one_more(counted.truncated_lines)
                } else {
                    counted.truncated_lines
                },
                ..counted
            };
            if class == EvidenceClass::Example && !named {
                cut.with_example(span, body)
            } else {
                cut.with_evidence(span, body, class, named)
            }
        }
    }

    /// The term samples that are shown, one per line.
    pub open spec fn samples(self) -> Seq<RecordModel> {
        one_per_line(by_line(present(self.priority_terms)))
    }

    /// The ranked sections: outcome, diagnostics, their context, the term samples, structure,
    /// the notes if they fit, and examples.
    pub open spec fn sections(
        self,
        available: nat,
        shown: Seq<u64>,
        samples: Seq<u8>,
        markers: Seq<u8>,
    ) -> Sections {
        let ranked = (Sections { body: Seq::empty(), retained: shown, available }).with_bucket(
            self.buckets[1],
            self.newline,
            shown,
        ).with_bucket(self.buckets[0], self.newline, shown).with_bucket(
            self.buckets[3],
            self.newline,
            shown,
        );
        let structured = (Sections { body: ranked.body + samples, ..ranked }).with_bucket(
            self.buckets[2],
            self.newline,
            shown,
        );
        let noted = if markers.len() <= structured.available {
            Sections {
                body: structured.body + markers,
                available: less(structured.available, markers.len()),
                ..structured
            }
        } else {
            structured
        };
        noted.with_bucket(self.buckets[4], self.newline, shown)
    }

    /// The opening lines of the summary where `omitted` lines are not shown.
    pub open spec fn opening(
        self,
        omitted: u64,
        registered: Seq<bool>,
        recovery: Option<MarkerModel>,
    ) -> Seq<u8> {
        summary_prefix(
            self.family,
            self.total_lines,
            terms_suffix(registered),
            omitted,
            self.truncated_lines,
            recovery,
            self.newline,
        )
    }

    /// The budget of the summary: a small one for a success that reports no problem.
    pub open spec fn output_limit(
        self,
        recovery: Option<MarkerModel>,
        registered: Seq<bool>,
        success: bool,
    ) -> nat {
        let compact_limit = if self.policy.max_output_bytes < 512 {
            self.policy.max_output_bytes as nat
        } else {
            512
        };
        let samples = term_samples(self.samples(), self.newline);
        if success && self.buckets[0].total == 0 && reported_terms(registered, 5).len() == 0
            && self.samples().len() == 0 && saturated(
            self.opening(self.total_lines, registered, recovery).len() + samples.len(),
        ) <= compact_limit {
            compact_limit
        } else {
            self.policy.max_output_bytes as nat
        }
    }

    /// The sections of the summary.
    #[verifier::opaque]
    pub open spec fn summary_sections(
        self,
        recovery: Option<MarkerModel>,
        registered: Seq<bool>,
        success: bool,
    ) -> Sections {
        let samples = term_samples(self.samples(), self.newline);
        self.sections(
            less(
                less(
                    self.output_limit(recovery, registered, success),
                    self.opening(self.total_lines, registered, recovery).len(),
                ),
                samples.len(),
            ),
            first_lines(self.samples()),
            samples,
            structural_markers(
                self.noise_lines,
                self.truncated_lines,
                self.newline,
                recovery is None,
            ),
        )
    }

    /// How many source lines the summary does not show.
    pub open spec fn omitted_lines(
        self,
        recovery: Option<MarkerModel>,
        registered: Seq<bool>,
        success: bool,
    ) -> u64 {
        fewer(
            self.total_lines,
            self.summary_sections(recovery, registered, success).retained.to_set().len(),
        )
    }

    /// The summary.
    pub open spec fn summary(
        self,
        recovery: Option<MarkerModel>,
        registered: Seq<bool>,
        success: bool,
    ) -> Seq<u8> {
        first_bytes(
            self.opening(
                self.omitted_lines(recovery, registered, success),
                registered,
                recovery,
            ) + self.summary_sections(recovery, registered, success).body,
            self.output_limit(recovery, registered, success),
        )
    }
}

/// The term samples after one more record: it fills the slots of the terms that it names.
pub open spec fn with_samples(
    slots: Seq<Option<RecordModel>>,
    record: RecordModel,
) -> Seq<Option<RecordModel>> {
    Seq::new(
        slots.len(),
        |i: int|
            if slots[i] is None && crate::bytes::has_infix_folded(
                record.body,
                lit(super::classify::registered_terms()[i]),
            ) {
                Some(excerpt(record, lit(super::classify::registered_terms()[i])))
            } else {
                slots[i]
            },
    )
}

/// The policy of a collector does not change.
pub proof fn lemma_observed_keeps_policy(
    collector: CollectorModel,
    line_number: u64,
    line: LineModel,
    class: EvidenceClass,
)
    ensures
        collector.observed(line_number, line, class).policy == collector.policy,
{
}

/// The summary stays within its budget, which is the policy's or a smaller one.
pub proof fn lemma_summary_within_budget(
    collector: CollectorModel,
    recovery: Option<MarkerModel>,
    registered: Seq<bool>,
    success: bool,
)
    ensures
        collector.summary(recovery, registered, success).len() <= collector.output_limit(
            recovery,
            registered,
            success,
        ) <= collector.policy.max_output_bytes,
{
}

fn separator(byte: u8) -> (found: bool)
    ensures
        found == is_space(byte),
{
    byte == 32 || byte == 9 || byte == 10 || byte == 12 || byte == 13
}

fn find_last_word(value: &[u8]) -> (word: &[u8])
    ensures
        word@ == last_word(value@),
{
    let mut end: usize = value.len();
    assert(value@.take(value@.len() as int) =~= value@);
    while end > 0 && separator(value[end - 1])
        invariant
            end <= value.len(),
            last_word(value@) == last_word(value@.take(end as int)),
        decreases end,
    {
        assert(value@.take(end as int).drop_last() =~= value@.take(end - 1));
        end -= 1;
    }
    assert(end > 0 ==> value@.take(end as int).last() == value@[end - 1]);
    let mut start: usize = end;
    assert(value@.subrange(end as int, end as int) =~= Seq::empty());
    assert(closing_word(value@.take(end as int)) =~= closing_word(value@.take(end as int))
        + value@.subrange(end as int, end as int));
    while start > 0 && !separator(value[start - 1])
        invariant
            start <= end <= value.len(),
            closing_word(value@.take(end as int)) == closing_word(value@.take(start as int))
                + value@.subrange(start as int, end as int),
        decreases start,
    {
        proof {
            let upper = value@.take(start as int);
            assert(upper.drop_last() =~= value@.take(start - 1));
            assert(closing_word(upper) + value@.subrange(start as int, end as int)
                =~= closing_word(upper.drop_last()) + value@.subrange(start - 1, end as int));
        }
        start -= 1;
    }
    proof {
        let upper = value@.take(start as int);
        if start > 0 {
            assert(upper.last() == value@[start - 1]);
        }
        assert(closing_word(upper) =~= Seq::empty());
        assert(closing_word(value@.take(end as int)) =~= value@.subrange(start as int, end as int));
    }
    &value[start..end]
}

fn cut_before<'a>(value: &'a [u8], needle: &[u8]) -> (part: &'a [u8])
    ensures
        part@ == crate::bytes::before_first(value@, needle@),
{
    match find(value, needle) {
        Some(at) => &value[0..at],
        None => value,
    }
}

fn example_key<'a>(family: &str, body: &'a [u8]) -> (key: Option<&'a [u8]>)
    ensures
        key is Some <==> group_key(family@, body@) is Some,
        key matches Some(bytes) ==> group_key(family@, body@) == Some(bytes@),
{
    let body = strip_line_ending(body);
    let key: &'a [u8] = if same_text(family, "search") || same_text(family, "build") {
        cut_before(body, ":".as_bytes())
    } else if same_text(family, "test") {
        cut_before(body, "...".as_bytes())
    } else if same_text(family, "list") {
        let word = find_last_word(body);
        match find(word, "/".as_bytes()) {
            Some(at) => &word[0..at],
            None => {
                return None;
            },
        }
    } else {
        return None;
    };
    if key.len() == 0 {
        return None;
    }
    let length: usize = if key.len() < 128 {
        key.len()
    } else {
        128
    };
    Some(&key[0..length])
}

fn diagnostic_representative(record: &EvidenceRecord, term: &[u8]) -> (sample: EvidenceRecord)
    ensures
        sample@ == excerpt(record@, term@),
{
    let body = strip_line_ending(record.body.as_slice());
    if body.len() <= 32 {
        return record.duplicate();
    }
    let position: usize = match find_folded(body, term) {
        Some(at) => at,
        None => 0,
    };
    let start: usize = position.saturating_sub(24);
    assert(start <= body.len());
    let end: usize = if body.len() - start > 32 {
        start + 32
    } else {
        body.len()
    };
    let mut text: Vec<u8> = Vec::new();
    if start > 0 {
        text = copy("[...] ".as_bytes());
    }
    append(&mut text, &body[start..end]);
    if end < body.len() {
        append_text(&mut text, " [...]");
    }
    let sample = EvidenceRecord { span: record.span, body: text, repeats: record.repeats };
    assert(sample@.body =~= excerpt(record@, term@).body);
    sample
}

fn append_recovery_marker(
    output: &mut Vec<u8>,
    newline: &[u8],
    omitted: u64,
    truncated: u64,
    recovery: Option<RecoveryMarker<'_>>,
)
    ensures
        final(output)@ == old(output)@ + recovery_text(newline@, omitted, truncated, marker_model(recovery)),
{
    proof {
        reveal(recovery_text);
    }
    let mut description: Vec<u8> = Vec::new();
    if omitted == 0 && truncated == 0 {
        description = copy("exact output archived".as_bytes());
    } else if truncated == 0 {
        description = copy("omitted ".as_bytes());
        append_decimal(&mut description, omitted);
        append_text(&mut description, " line(s)");
    } else {
        description = copy("omitted ".as_bytes());
        append_decimal(&mut description, omitted);
        append_text(&mut description, " line(s), truncated ");
        append_decimal(&mut description, truncated);
        append_text(&mut description, " line(s)");
    }
    assert(description@ == omission_text(omitted, truncated));
    let mut text: Vec<u8> = copy("[yarp: ".as_bytes());
    append(&mut text, description.as_slice());
    if let Some(marker) = recovery {
        append_text(&mut text, "; ref=");
        append_text(&mut text, marker.archive_ref);
        append_text(&mut text, "; ");
        append_text(&mut text, marker.source);
        append_text(&mut text, " ");
        append_text(&mut text, marker.completeness);
        append_text(&mut text, "]");
        append(&mut text, newline);
        append_text(&mut text, "Search omitted output: yarp search ");
        append_text(&mut text, marker.archive_ref);
        append_text(&mut text, " 'term|alternate'");
        append(&mut text, newline);
    } else {
        append_text(&mut text, "]");
        append(&mut text, newline);
    }
    append(output, text.as_slice());
}

fn render_summary_prefix(
    family: &str,
    total_lines: u64,
    suffix: &[u8],
    omitted: u64,
    truncated: u64,
    recovery: Option<RecoveryMarker<'_>>,
    newline: &[u8],
) -> (output: Vec<u8>)
    ensures
        output@ == summary_prefix(
            family@,
            total_lines,
            suffix@,
            omitted,
            truncated,
            marker_model(recovery),
            newline@,
        ),
{
    let mut output: Vec<u8> = copy("[yarp summary: ".as_bytes());
    append_text(&mut output, family);
    append_text(&mut output, "; source_lines=");
    append_decimal(&mut output, total_lines);
    append(&mut output, suffix);
    append_text(&mut output, "]");
    append(&mut output, newline);
    if omitted > 0 || truncated > 0 || recovery.is_some() {
        append_recovery_marker(&mut output, newline, omitted, truncated, recovery);
    } else {
        assert(output@ + Seq::<u8>::empty() =~= output@);
    }
    output
}

fn render_structural_markers(
    noise_lines: u64,
    truncated_lines: u64,
    newline: &[u8],
    shown: bool,
) -> (output: Vec<u8>)
    ensures
        output@ == structural_markers(noise_lines, truncated_lines, newline@, shown),
{
    let mut output: Vec<u8> = Vec::new();
    if !shown {
        return output;
    }
    if noise_lines > 0 {
        output = copy("[yarp: omitted ".as_bytes());
        append_decimal(&mut output, noise_lines);
        append_text(&mut output, " routine line(s)]");
        append(&mut output, newline);
    }
    let mut cut: Vec<u8> = Vec::new();
    if truncated_lines > 0 {
        cut = copy("[yarp: truncated ".as_bytes());
        append_decimal(&mut cut, truncated_lines);
        append_text(&mut cut, " retained line(s)]");
        append(&mut cut, newline);
    }
    append(&mut output, cut.as_slice());
    output
}

fn render_source_term_samples(records: &Vec<EvidenceRecord>, newline: &[u8]) -> (output: Vec<u8>)
    ensures
        output@ == term_samples(super::bucket::record_models(records@), newline@),
{
    let ghost models = super::bucket::record_models(records@);
    let mut output: Vec<u8> = Vec::new();
    if records.len() == 0 {
        return output;
    }
    output = copy("== source term samples ==".as_bytes());
    append(&mut output, newline);
    let ghost heading = output@;
    assert(output@ =~= heading + record_texts(models.take(0), newline@));
    let mut i: usize = 0;
    while i < records.len()
        invariant
            i <= records.len(),
            models == super::bucket::record_models(records@),
            output@ == heading + record_texts(models.take(i as int), newline@),
        decreases records.len() - i,
    {
        render_record(&mut output, &records[i], newline);
        proof {
            assert(models.take(i + 1).drop_last() =~= models.take(i as int));
            assert(models.take(i + 1).last() == records@[i as int]@);
            assert(output@ =~= heading + record_texts(models.take(i + 1), newline@));
        }
        i += 1;
    }
    assert(models.take(models.len() as int) =~= models);
    output
}

/// Count the different lines.
fn count_distinct(lines: &Vec<u64>) -> (count: usize)
    ensures
        count == lines@.to_set().len(),
{
    broadcast use {vstd::set::group_set_axioms, vstd::seq_lib::seq_to_set_is_finite};

    let mut count: usize = 0;
    let mut i: usize = 0;
    assert(lines@.take(0).to_set() =~= Set::empty());
    while i < lines.len()
        invariant
            i <= lines.len(),
            count <= i,
            count == lines@.take(i as int).to_set().len(),
        decreases lines.len() - i,
    {
        let mut j: usize = 0;
        while j < i && lines[j] != lines[i]
            invariant
                j <= i < lines.len(),
                forall|k: int| 0 <= k < j ==> lines@[k] != lines@[i as int],
            decreases i - j,
        {
            j += 1;
        }
        proof {
            let earlier = lines@.take(i as int);
            let later = lines@.take(i + 1);
            assert(later =~= earlier.push(lines@[i as int]));
            assert(later.to_set() =~= earlier.to_set().insert(lines@[i as int])) by {
                assert forall|line: u64| later.to_set().contains(line) implies earlier.to_set().insert(
                    lines@[i as int],
                ).contains(line) by {
                    let k = choose|k: int| 0 <= k < later.len() && later[k] == line;
                    if k < i {
                        assert(earlier[k] == line);
                    }
                }
                assert forall|line: u64|
                    earlier.to_set().insert(lines@[i as int]).contains(
                        line,
                    ) implies later.to_set().contains(line) by {
                    if line == lines@[i as int] {
                        assert(later[i as int] == line);
                    } else {
                        let k = choose|k: int| 0 <= k < earlier.len() && earlier[k] == line;
                        assert(later[k] == line);
                    }
                }
            }
            if j < i {
                assert(earlier[j as int] == lines@[i as int]);
                assert(earlier.to_set().contains(lines@[i as int]));
                assert(later.to_set() =~= earlier.to_set());
            } else {
                assert(!earlier.to_set().contains(lines@[i as int]));
            }
        }
        if j == i {
            count += 1;
        }
        i += 1;
    }
    assert(lines@.take(lines@.len() as int) =~= lines@);
    count
}

fn extend_lines(lines: &mut Vec<u64>, more: &Vec<u64>)
    ensures
        final(lines)@ == old(lines)@ + more@,
{
    let ghost before = lines@;
    let mut i: usize = 0;
    while i < more.len()
        invariant
            i <= more.len(),
            lines@ =~= before + more@.take(i as int),
        decreases more.len() - i,
    {
        lines.push(more[i]);
        i += 1;
    }
    assert(more@.take(more@.len() as int) =~= more@);
}

/// Collects classified lines and renders them as a bounded summary.
#[derive(Debug)]
pub struct EvidenceCollector {
    family: &'static str,
    policy: OutputPolicy,
    buckets: Vec<Bucket>,
    total_lines: u64,
    noise_lines: u64,
    newline: Vec<u8>,
    newline_observed: bool,
    truncated_lines: u64,
    priority_terms: Vec<Option<EvidenceRecord>>,
    example_keys: Vec<((u64, u64, usize), Vec<u8>)>,
}

spec fn bucket_models(buckets: Seq<Bucket>) -> Seq<BucketModel> {
    buckets.map_values(|bucket: Bucket| bucket@)
}

spec fn slot_model(slot: Option<EvidenceRecord>) -> Option<RecordModel> {
    match slot {
        Some(record) => Some(record@),
        None => None,
    }
}

spec fn slot_models(slots: Seq<Option<EvidenceRecord>>) -> Seq<Option<RecordModel>> {
    slots.map_values(|slot: Option<EvidenceRecord>| slot_model(slot))
}

spec fn key_models(keys: Seq<((u64, u64, usize), Vec<u8>)>) -> Seq<
    ((u64, u64, usize), Seq<u8>),
> {
    keys.map_values(|key: ((u64, u64, usize), Vec<u8>)| (key.0, key.1@))
}

impl View for EvidenceCollector {
    type V = CollectorModel;

    closed spec fn view(&self) -> CollectorModel {
        CollectorModel {
            family: self.family@,
            policy: self.policy,
            buckets: bucket_models(self.buckets@),
            total_lines: self.total_lines,
            noise_lines: self.noise_lines,
            newline: self.newline@,
            newline_observed: self.newline_observed,
            truncated_lines: self.truncated_lines,
            priority_terms: slot_models(self.priority_terms@),
            example_keys: key_models(self.example_keys@),
        }
    }
}

impl EvidenceCollector {
    /// The buckets are well formed and everything stays within its budget.
    pub closed spec fn well_formed(&self) -> bool {
        &&& self@.bounded()
        &&& forall|i: int| 0 <= i < self.buckets@.len() ==> (#[trigger] self.buckets@[i]).well_formed()
    }

    /// A well-formed collector stays within its budgets.
    pub proof fn lemma_bounded(&self)
        requires
            self.well_formed(),
        ensures
            self@.bounded(),
    {
    }

    /// An empty collector for one output family.
    #[must_use]
    pub fn new(family: &'static str, policy: OutputPolicy) -> (collector: Self)
        ensures
            collector@ == CollectorModel::fresh(family@, policy),
            collector.well_formed(),
    {
        let budget: usize = policy.max_output_bytes;
        let mut buckets: Vec<Bucket> = Vec::new();
        buckets.push(Bucket::new(EvidenceClass::Diagnostic, budget));
        buckets.push(Bucket::new(EvidenceClass::Outcome, budget));
        buckets.push(Bucket::new(EvidenceClass::Structure, budget));
        buckets.push(Bucket::new(EvidenceClass::Context, budget));
        buckets.push(Bucket::new(EvidenceClass::Example, budget));
        let mut priority_terms: Vec<Option<EvidenceRecord>> = Vec::new();
        priority_terms.push(None);
        priority_terms.push(None);
        priority_terms.push(None);
        priority_terms.push(None);
        priority_terms.push(None);
        let collector = EvidenceCollector {
            family,
            policy,
            buckets,
            total_lines: 0,
            noise_lines: 0,
            newline: copy("\n".as_bytes()),
            newline_observed: false,
            truncated_lines: 0,
            priority_terms,
            example_keys: Vec::new(),
        };
        proof {
            let fresh = CollectorModel::fresh(family@, policy);
            assert(collector@.buckets =~= fresh.buckets);
            assert(collector@.priority_terms =~= fresh.priority_terms);
            assert(collector@.example_keys =~= fresh.example_keys);
            assert forall|i: int| 0 <= i < 5 implies (#[trigger] collector@.buckets[i]).bounded() by {
                assert(collector@.buckets[i] == collector.buckets@[i]@);
            }
        }
        collector
    }

    fn known(&self, fingerprint: (u64, u64, usize)) -> (index: Option<usize>)
        ensures
            index is None <==> known_key(self@.example_keys, fingerprint, 0) is None,
            index matches Some(i) ==> i < self.example_keys@.len() && known_key(
                self@.example_keys,
                fingerprint,
                0,
            ) == Some(self.example_keys@[i as int].1@),
    {
        let ghost keys = self@.example_keys;
        let mut i: usize = 0;
        while i < self.example_keys.len()
            invariant
                i <= self.example_keys.len(),
                keys == self@.example_keys,
                known_key(keys, fingerprint, 0) == known_key(keys, fingerprint, i as int),
            decreases self.example_keys.len() - i,
        {
            let known = self.example_keys[i].0;
            assert(keys[i as int].0 == known);
            if known.0 == fingerprint.0 && known.1 == fingerprint.1 && known.2 == fingerprint.2 {
                return Some(i);
            }
            i += 1;
        }
        None
    }
}

proof fn lemma_bucket_update(buckets: Seq<Bucket>, index: int, bucket: Bucket)
    requires
        0 <= index < buckets.len(),
    ensures
        bucket_models(buckets.update(index, bucket)) == bucket_models(buckets).update(
            index,
            bucket@,
        ),
{
    assert(bucket_models(buckets.update(index, bucket)) =~= bucket_models(buckets).update(
        index,
        bucket@,
    ));
}

proof fn lemma_observed_keeps_class(bucket: BucketModel, span: SourceSpan, body: Seq<u8>)
    ensures
        bucket.observed(span, body).class == bucket.class,
{
    let record = RecordModel { span, body, repeats: 1 };
    let fingerprint = super::bucket::fingerprint_of(body);
    let counted = BucketModel {
        total: one_more(bucket.total),
        fingerprints: if !bucket.fingerprints.contains(fingerprint) && bucket.fingerprints.len()
            < 128 {
            bucket.fingerprints.push(fingerprint)
        } else {
            bucket.fingerprints
        },
        ..bucket
    };
    lemma_room_keeps_class(counted, body.len());
}

proof fn lemma_room_keeps_class(bucket: BucketModel, need: nat)
    ensures
        bucket.with_room(need).class == bucket.class,
    decreases bucket.tail.len(),
{
    if bucket.tail.len() > 0 && (bucket.tail.len() >= 64 || super::bucket::held_bytes(bucket.tail)
        + need > bucket.tail_budget) {
        lemma_room_keeps_class(
            (BucketModel { tail: bucket.tail.drop_first(), ..bucket }).without(
                bucket.tail[0].span,
            ),
            need,
        );
    }
}

impl EvidenceCollector {
    fn sample_terms(&mut self, record: &EvidenceRecord)
        requires
            old(self).well_formed(),
            record.repeats == 1,
        ensures
            final(self).well_formed(),
            final(self)@ == (CollectorModel {
                priority_terms: with_samples(old(self)@.priority_terms, record@),
                ..old(self)@
            }),
    {
        let ghost before = self@;
        let ghost goal = with_samples(before.priority_terms, record@);
        let ghost entry = *self;
        let mut i: usize = 0;
        while i < 5
            invariant
                i <= 5,
                self.well_formed(),
                before == entry@,
                before.priority_terms.len() == 5,
                goal == with_samples(before.priority_terms, record@),
                self@ == (CollectorModel { priority_terms: self@.priority_terms, ..before }),
                self.buckets@ == entry.buckets@,
                forall|j: int| 0 <= j < i ==> self@.priority_terms[j] == goal[j],
                forall|j: int|
                    i <= j < 5 ==> self@.priority_terms[j] == before.priority_terms[j],
            decreases 5 - i,
        {
            let term: &'static str = super::classify::REGISTERED_DIAGNOSTICS[i];
            assert(term == super::classify::registered_terms()[i as int]);
            assert(self@.priority_terms[i as int] == slot_model(self.priority_terms@[i as int]));
            let ghost slots = self.priority_terms@;
            if self.priority_terms[i].is_none() && contains_ascii_insensitive(
                record.body.as_slice(),
                term.as_bytes(),
            ) {
                let sample = diagnostic_representative(record, term.as_bytes());
                self.priority_terms.set(i, Some(sample));
                assert(slot_models(self.priority_terms@) =~= slot_models(slots).update(
                    i as int,
                    Some(sample@),
                ));
            }
            i += 1;
        }
        assert(self@.priority_terms =~= goal);
    }

    fn add_evidence(&mut self, record: EvidenceRecord, class: EvidenceClass, named: bool)
        requires
            old(self).well_formed(),
            record.repeats == 1,
        ensures
            final(self).well_formed(),
            final(self)@ == old(self)@.with_evidence(record.span, record.body@, class, named),
    {
        let ghost before = self@;
        if named {
            self.sample_terms(&record);
        }
        let ghost sampled = *self;
        let ghost span = record.span;
        let ghost body = record.body@;
        if let Some(index) = class.index() {
            assert(self@.buckets[index as int] == self.buckets@[index as int]@);
            self.buckets[index].observe(record);
            proof {
                lemma_bucket_update(
                    sampled.buckets@,
                    index as int,
                    self.buckets@[index as int],
                );
                lemma_observed_keeps_class(sampled@.buckets[index as int], span, body);
                assert(self.buckets@ =~= sampled.buckets@.update(
                    index as int,
                    self.buckets@[index as int],
                ));
                self.buckets@[index as int].lemma_bounded();
            }
        }
        assert(self@.buckets =~= before.with_evidence(span, body, class, named).buckets);
    }

    fn add_example(&mut self, record: EvidenceRecord)
        requires
            old(self).well_formed(),
            record.repeats == 1,
        ensures
            final(self).well_formed(),
            final(self)@ == old(self)@.with_example(record.span, record.body@),
    {
        let ghost before = *self;
        assert(self@.buckets[4] == self.buckets@[4]@);
        let repeated = self.buckets[4].observe_repeat(record.body.as_slice(), record.span);
        proof {
            lemma_bucket_update(before.buckets@, 4, self.buckets@[4]);
            assert(self.buckets@ =~= before.buckets@.update(4, self.buckets@[4]));
            self.buckets@[4].lemma_bounded();
            assert(self@.buckets =~= before@.buckets.update(4, self.buckets@[4]@));
        }
        if repeated {
            return ;
        }
        assert(self@.buckets =~= before@.buckets);
        if let Some(key) = example_key(self.family, record.body.as_slice()) {
            let fingerprint = record_fingerprint(key);
            match self.known(fingerprint) {
                Some(index) => {
                    if same_bytes(self.example_keys[index].1.as_slice(), key) {
                        self.noise_lines = self.noise_lines.saturating_add(1);
                        return ;
                    }
                },
                None => {
                    if self.example_keys.len() < 128 {
                        let ghost keys = self.example_keys@;
                        let stored = copy(key);
                        self.example_keys.push((fingerprint, stored));
                        assert(key_models(self.example_keys@) =~= key_models(keys).push(
                            (fingerprint, stored@),
                        ));
                    }
                },
            }
        }
        self.add_evidence(record, EvidenceClass::Example, false);
    }

    fn count_line(&mut self, line: &LineView, class: EvidenceClass)
        requires
            old(self).well_formed(),
        ensures
            final(self).well_formed(),
            final(self)@ == old(self)@.counted(line@, class),
    {
        self.total_lines = self.total_lines.saturating_add(1);
        if line.line_ending.len() > 0 {
            if !self.newline_observed {
                self.newline = copy(line.line_ending.as_slice());
            }
            self.newline_observed = true;
        }
        if class == EvidenceClass::Noise {
            self.noise_lines = self.noise_lines.saturating_add(1);
        }
    }

    fn count_cut(&mut self)
        requires
            old(self).well_formed(),
        ensures
            final(self).well_formed(),
            final(self)@ == (CollectorModel {
                truncated_lines: one_more(old(self)@.truncated_lines),
                ..old(self)@
            }),
    {
        self.truncated_lines = self.truncated_lines.saturating_add(1);
    }

    fn line_limit(&self) -> (limit: usize)
        ensures
            limit == self@.policy.max_line_bytes,
    {
        self.policy.max_line_bytes
    }

    /// Take one more line.
    pub fn observe(&mut self, line_number: u64, line: &LineView, class: EvidenceClass)
        requires
            old(self).well_formed(),
        ensures
            final(self).well_formed(),
            final(self)@ == old(self)@.observed(line_number, line@, class),
    {
        let ghost before = self@;
        let named: bool = has_registered_diagnostic(line.prefix.as_slice()) || (line.truncated
            && has_registered_diagnostic(line.tail_bytes().as_slice()));
        self.count_line(line, class);
        if class == EvidenceClass::Noise && !named {
            return ;
        }
        let two_sided: bool = class == EvidenceClass::Diagnostic || class == EvidenceClass::Example
            || class == EvidenceClass::Noise;
        let (body, truncated) = render_line(line, self.line_limit(), two_sided);
        if truncated {
            self.count_cut();
        }
        let span = SourceSpan { first_line: line_number, last_line: line_number };
        let record = EvidenceRecord { span, body, repeats: 1 };
        if class == EvidenceClass::Example && !named {
            self.add_example(record);
        } else {
            self.add_evidence(record, class, named);
        }
    }
}

/// Collect the term samples in the order of their lines, one per line.
fn collect_samples(slots: &Vec<Option<EvidenceRecord>>) -> (samples: Vec<EvidenceRecord>)
    ensures
        super::bucket::record_models(samples@) == one_per_line(
            by_line(present(slot_models(slots@))),
        ),
{
    let ghost models = slot_models(slots@);
    let mut ordered: Vec<&EvidenceRecord> = Vec::new();
    let mut i: usize = 0;
    assert(super::bucket::borrowed_models(ordered@) =~= by_line(present(models.take(0))));
    while i < slots.len()
        invariant
            i <= slots.len(),
            models == slot_models(slots@),
            super::bucket::borrowed_models(ordered@) == by_line(present(models.take(i as int))),
        decreases slots.len() - i,
    {
        proof {
            assert(models.take(i + 1).drop_last() =~= models.take(i as int));
            assert(models.take(i + 1).last() == slot_model(slots@[i as int]));
        }
        if let Some(record) = &slots[i] {
            let ghost earlier = present(models.take(i as int));
            place(&mut ordered, record);
            proof {
                assert(earlier.push(record@).drop_last() =~= earlier);
            }
        }
        i += 1;
    }
    assert(models.take(models.len() as int) =~= models);
    let ghost records = super::bucket::borrowed_models(ordered@);
    let mut samples: Vec<EvidenceRecord> = Vec::new();
    let mut j: usize = 0;
    assert(super::bucket::record_models(samples@) =~= one_per_line(records.take(0)));
    while j < ordered.len()
        invariant
            j <= ordered.len(),
            records == super::bucket::borrowed_models(ordered@),
            super::bucket::record_models(samples@) == one_per_line(records.take(j as int)),
        decreases ordered.len() - j,
    {
        let ghost earlier = samples@;
        proof {
            assert(records.take(j + 1).drop_last() =~= records.take(j as int));
            assert(records.take(j + 1).last() == ordered@[j as int]@);
            if earlier.len() > 0 {
                assert(super::bucket::record_models(earlier).last() == earlier.last()@);
            }
        }
        let line: u64 = ordered[j].span.first_line;
        if samples.len() == 0 || samples[samples.len() - 1].span.first_line != line {
            let sample = ordered[j].duplicate();
            samples.push(sample);
            assert(super::bucket::record_models(samples@) =~= super::bucket::record_models(
                earlier,
            ).push(sample@));
        }
        j += 1;
    }
    assert(records.take(records.len() as int) =~= records);
    samples
}

fn sample_lines(samples: &Vec<EvidenceRecord>) -> (lines: Vec<u64>)
    ensures
        lines@ == first_lines(super::bucket::record_models(samples@)),
{
    let mut lines: Vec<u64> = Vec::new();
    let mut i: usize = 0;
    while i < samples.len()
        invariant
            i <= samples.len(),
            lines@.len() == i,
            forall|j: int| 0 <= j < i ==> lines@[j] == samples@[j].span.first_line,
        decreases samples.len() - i,
    {
        lines.push(samples[i].span.first_line);
        i += 1;
    }
    assert(lines@ =~= first_lines(super::bucket::record_models(samples@)));
    lines
}

/// List the reported terms, separated by commas.
fn join_reported_terms(registered: &[bool; 5]) -> (terms: Vec<u8>)
    ensures
        terms@ == reported_terms(registered@, 5),
{
    let mut terms: Vec<u8> = Vec::new();
    let mut i: usize = 0;
    assert(terms@ =~= reported_terms(registered@, 0));
    while i < 5
        invariant
            i <= 5,
            terms@ == reported_terms(registered@, i as nat),
        decreases 5 - i,
    {
        let term: &'static str = super::classify::REGISTERED_DIAGNOSTICS[i];
        assert(term == super::classify::registered_terms()[i as int]);
        if registered[i] {
            if terms.len() > 0 {
                append_text(&mut terms, ",");
                append_text(&mut terms, term);
            } else {
                terms = copy(term.as_bytes());
            }
        }
        i += 1;
    }
    terms
}

impl EvidenceCollector {
    fn append_ranked_class(
        &self,
        class: EvidenceClass,
        output: &mut Vec<u8>,
        retained_lines: &mut Vec<u64>,
        available: usize,
        represented: &Vec<u64>,
    ) -> (left: usize)
        requires
            self.well_formed(),
            class != EvidenceClass::Noise,
        ensures
            (Sections {
                body: final(output)@,
                retained: final(retained_lines)@,
                available: left as nat,
            }) == (Sections {
                body: old(output)@,
                retained: old(retained_lines)@,
                available: available as nat,
            }).with_bucket(
                self@.buckets[class.slot()->0],
                self@.newline,
                represented@,
            ),
    {
        match class.index() {
            Some(index) => {
                assert(self@.buckets[index as int] == self.buckets@[index as int]@);
                let rendered = self.buckets[index].render_ranked(
                    available,
                    self.newline.as_slice(),
                    represented.as_slice(),
                );
                append(output, rendered.body.as_slice());
                extend_lines(retained_lines, &rendered.retained_lines);
                available.saturating_sub(rendered.body.len())
            },
            None => available,
        }
    }

    fn render_ranked_sections(
        &self,
        available: usize,
        represented: &Vec<u64>,
        source_term_samples: &[u8],
        structural_markers: &[u8],
    ) -> (rendered: (Vec<u8>, u64))
        requires
            self.well_formed(),
        ensures
            ({
                let sections = self@.sections(
                    available as nat,
                    represented@,
                    source_term_samples@,
                    structural_markers@,
                );
                &&& rendered.0@ == sections.body
                &&& rendered.1 == fewer(self@.total_lines, sections.retained.to_set().len())
            }),
    {
        let mut sections: Vec<u8> = Vec::new();
        let mut retained: Vec<u64> = Vec::new();
        extend_lines(&mut retained, represented);
        assert(retained@ =~= represented@);
        assert(sections@ =~= Seq::empty());
        let left: usize = self.append_ranked_class(
            EvidenceClass::Outcome,
            &mut sections,
            &mut retained,
            available,
            represented,
        );
        let left: usize = self.append_ranked_class(
            EvidenceClass::Diagnostic,
            &mut sections,
            &mut retained,
            left,
            represented,
        );
        let left: usize = self.append_ranked_class(
            EvidenceClass::Context,
            &mut sections,
            &mut retained,
            left,
            represented,
        );
        append(&mut sections, source_term_samples);
        let mut left: usize = self.append_ranked_class(
            EvidenceClass::Structure,
            &mut sections,
            &mut retained,
            left,
            represented,
        );
        if structural_markers.len() <= left {
            left = left - structural_markers.len();
            append(&mut sections, structural_markers);
        }
        let _ = self.append_ranked_class(
            EvidenceClass::Example,
            &mut sections,
            &mut retained,
            left,
            represented,
        );
        let shown: usize = count_distinct(&retained);
        (sections, self.total_lines.saturating_sub(shown as u64))
    }

    /// Render the summary.
    #[must_use]
    #[verifier::rlimit(60)]
    pub fn render(
        self,
        recovery: Option<RecoveryMarker<'_>>,
        registered_diagnostics: [bool; 5],
        success: bool,
    ) -> (output: Vec<u8>)
        requires
            self.well_formed(),
        ensures
            output@ == self@.summary(marker_model(recovery), registered_diagnostics@, success),
            output@.len() <= self@.policy.max_output_bytes,
    {
        let ghost model = self@;
        proof {
            reveal(CollectorModel::summary_sections);
        }
        assert(model.buckets[0] == self.buckets@[0]@);
        let has_typed_diagnostics: bool = self.buckets[0].total() > 0;
        let samples = collect_samples(&self.priority_terms);
        let represented = sample_lines(&samples);
        let newline: &[u8] = self.newline.as_slice();
        let source_term_samples = render_source_term_samples(&samples, newline);
        let mandatory_bytes: usize = source_term_samples.len();
        let registered = join_reported_terms(&registered_diagnostics);
        let mut suffix: Vec<u8> = Vec::new();
        if registered.len() > 0 {
            suffix = copy("; source_terms=".as_bytes());
            append(&mut suffix, registered.as_slice());
        }
        assert(suffix@ == terms_suffix(registered_diagnostics@)) by {
            reveal(terms_suffix);
        }
        let provisional_prefix = render_summary_prefix(
            self.family,
            self.total_lines,
            suffix.as_slice(),
            self.total_lines,
            self.truncated_lines,
            recovery,
            newline,
        );
        let compact_limit: usize = if self.policy.max_output_bytes < 512 {
            self.policy.max_output_bytes
        } else {
            512
        };
        let compact: bool = success && !has_typed_diagnostics && registered.len() == 0
            && samples.len() == 0 && provisional_prefix.len().saturating_add(mandatory_bytes)
            <= compact_limit;
        let output_limit: usize = if compact {
            compact_limit
        } else {
            self.policy.max_output_bytes
        };
        assert(super::bucket::record_models(samples@).len() == samples@.len());
        assert(output_limit == model.output_limit(marker_model(recovery), registered_diagnostics@, success));
        let structural_markers = render_structural_markers(
            self.noise_lines,
            self.truncated_lines,
            newline,
            recovery.is_none(),
        );
        let available: usize = output_limit.saturating_sub(
            provisional_prefix.len(),
        ).saturating_sub(mandatory_bytes);
        let (sections, omitted) = self.render_ranked_sections(
            available,
            &represented,
            source_term_samples.as_slice(),
            structural_markers.as_slice(),
        );
        let mut output = render_summary_prefix(
            self.family,
            self.total_lines,
            suffix.as_slice(),
            omitted,
            self.truncated_lines,
            recovery,
            newline,
        );
        append(&mut output, sections.as_slice());
        let ghost whole = output@;
        output.truncate(output_limit);
        assert(output@ =~= first_bytes(whole, output_limit as nat));
        output
    }
}

proof fn lemma_reported_terms_len(registered: Seq<bool>)
    ensures
        reported_terms(registered, 5).len() <= 39,
{
    reveal_with_fuel(reported_terms, 6);
    reveal_strlit("failure");
    reveal_strlit("panic");
    reveal_strlit("error");
    reveal_strlit("warning");
    reveal_strlit("test result");
    reveal_strlit(",");
    vstd::utf8::is_ascii_chars_encode_utf8("failure"@);
    vstd::utf8::is_ascii_chars_encode_utf8("panic"@);
    vstd::utf8::is_ascii_chars_encode_utf8("error"@);
    vstd::utf8::is_ascii_chars_encode_utf8("warning"@);
    vstd::utf8::is_ascii_chars_encode_utf8("test result"@);
    vstd::utf8::is_ascii_chars_encode_utf8(","@);
}

proof fn lemma_suffix_len(registered: Seq<bool>)
    ensures
        terms_suffix(registered).len() <= 54,
{
    reveal(terms_suffix);
    lemma_reported_terms_len(registered);
    reveal_strlit("; source_terms=");
    vstd::utf8::is_ascii_chars_encode_utf8("; source_terms="@);
}

proof fn lemma_omission_text_len(omitted: u64, truncated: u64)
    ensures
        omission_text(omitted, truncated).len() <= 76,
{
    crate::bytes::lemma_decimal_len_u64(omitted as nat);
    crate::bytes::lemma_decimal_len_u64(truncated as nat);
    reveal_strlit("exact output archived");
    reveal_strlit("omitted ");
    reveal_strlit(" line(s)");
    reveal_strlit(" line(s), truncated ");
    vstd::utf8::is_ascii_chars_encode_utf8("exact output archived"@);
    vstd::utf8::is_ascii_chars_encode_utf8("omitted "@);
    vstd::utf8::is_ascii_chars_encode_utf8(" line(s)"@);
    vstd::utf8::is_ascii_chars_encode_utf8(" line(s), truncated "@);
}

proof fn lemma_recovery_text_len(
    newline: Seq<u8>,
    omitted: u64,
    truncated: u64,
    marker: MarkerModel,
)
    ensures
        recovery_text(newline, omitted, truncated, Some(marker)).len() <= 145
            + vstd::utf8::encode_utf8(marker.archive_ref).len() * 2 + vstd::utf8::encode_utf8(
            marker.source,
        ).len() + vstd::utf8::encode_utf8(marker.completeness).len() + newline.len() * 2,
{
    reveal(recovery_text);
    lemma_omission_text_len(omitted, truncated);
    reveal_strlit("[yarp: ");
    reveal_strlit("; ref=");
    reveal_strlit("; ");
    reveal_strlit(" ");
    reveal_strlit("]");
    reveal_strlit("Search omitted output: yarp search ");
    reveal_strlit(" 'term|alternate'");
    vstd::utf8::is_ascii_chars_encode_utf8("[yarp: "@);
    vstd::utf8::is_ascii_chars_encode_utf8("; ref="@);
    vstd::utf8::is_ascii_chars_encode_utf8("; "@);
    vstd::utf8::is_ascii_chars_encode_utf8(" "@);
    vstd::utf8::is_ascii_chars_encode_utf8("]"@);
    vstd::utf8::is_ascii_chars_encode_utf8("Search omitted output: yarp search "@);
    vstd::utf8::is_ascii_chars_encode_utf8(" 'term|alternate'"@);
}

/// A summary within a valid output budget begins with its complete opening lines, and so with
/// the complete instruction for recovering the exact output.
pub proof fn lemma_summary_keeps_recovery(
    collector: CollectorModel,
    marker: MarkerModel,
    registered: Seq<bool>,
    success: bool,
)
    requires
        collector.policy.max_output_bytes >= 704,
        vstd::utf8::encode_utf8(collector.family).len() <= 16,
        collector.newline.len() <= 2,
        vstd::utf8::encode_utf8(marker.archive_ref).len() <= 64,
        vstd::utf8::encode_utf8(marker.source).len() <= 16,
        vstd::utf8::encode_utf8(marker.completeness).len() <= 16,
    ensures
        crate::bytes::has_prefix(
            collector.summary(Some(marker), registered, success),
            collector.opening(
                collector.omitted_lines(Some(marker), registered, success),
                registered,
                Some(marker),
            ),
        ),
{
    let omitted = collector.omitted_lines(Some(marker), registered, success);
    let body = collector.summary_sections(Some(marker), registered, success).body;
    let opening = collector.opening(omitted, registered, Some(marker));
    let limit = collector.output_limit(Some(marker), registered, success);
    assert(limit >= 512);
    lemma_opening_len(collector, omitted, registered, marker);
    lemma_cut_keeps_opening(opening, body, limit);
}

proof fn lemma_cut_keeps_opening(opening: Seq<u8>, body: Seq<u8>, limit: nat)
    requires
        opening.len() <= limit,
    ensures
        crate::bytes::has_prefix(first_bytes(opening + body, limit), opening),
{
    assert(first_bytes(opening + body, limit).subrange(0, opening.len() as int) =~= opening);
}

proof fn lemma_opening_len(
    collector: CollectorModel,
    omitted: u64,
    registered: Seq<bool>,
    marker: MarkerModel,
)
    requires
        vstd::utf8::encode_utf8(collector.family).len() <= 16,
        collector.newline.len() <= 2,
        vstd::utf8::encode_utf8(marker.archive_ref).len() <= 64,
        vstd::utf8::encode_utf8(marker.source).len() <= 16,
        vstd::utf8::encode_utf8(marker.completeness).len() <= 16,
    ensures
        collector.opening(omitted, registered, Some(marker)).len() <= 512,
{
    lemma_suffix_len(registered);
    lemma_recovery_text_len(collector.newline, omitted, collector.truncated_lines, marker);
    crate::bytes::lemma_decimal_len_u64(collector.total_lines as nat);
    reveal_strlit("[yarp summary: ");
    reveal_strlit("; source_lines=");
    reveal_strlit("]");
    vstd::utf8::is_ascii_chars_encode_utf8("[yarp summary: "@);
    vstd::utf8::is_ascii_chars_encode_utf8("; source_lines="@);
    vstd::utf8::is_ascii_chars_encode_utf8("]"@);
}

pub proof fn lemma_fewer_omitted_is_shorter(
    collector: CollectorModel,
    omitted: u64,
    registered: Seq<bool>,
    recovery: Option<MarkerModel>,
)
    requires
        0 < omitted <= collector.total_lines,
    ensures
        collector.opening(omitted, registered, recovery).len() <= collector.opening(
            collector.total_lines,
            registered,
            recovery,
        ).len(),
{
    crate::bytes::lemma_decimal_len_monotone(omitted as nat, collector.total_lines as nat);
    let truncated = collector.truncated_lines;
    assert(omission_text(omitted, truncated).len() <= omission_text(
        collector.total_lines,
        truncated,
    ).len());
    reveal(recovery_text);
    assert(recovery_text(collector.newline, omitted, truncated, recovery).len() <= recovery_text(
        collector.newline,
        collector.total_lines,
        truncated,
        recovery,
    ).len());
}

proof fn lemma_bucket_fits(
    sections: Sections,
    bucket: BucketModel,
    newline: Seq<u8>,
    shown: Seq<u64>,
)
    ensures
        ({
            let next = sections.with_bucket(bucket, newline, shown);
            &&& next.body.len() + next.available == sections.body.len() + sections.available
            &&& crate::bytes::has_prefix(next.body, sections.body)
        }),
{
    reveal(BucketModel::rendered);
    let next = sections.with_bucket(bucket, newline, shown);
    assert(bucket.rendered(sections.available, newline, shown).body.len() <= sections.available);
    assert(next.body.subrange(0, sections.body.len() as int) =~= sections.body);
}

proof fn lemma_prefix_of_prefix(whole: Seq<u8>, middle: Seq<u8>, start: Seq<u8>)
    requires
        crate::bytes::has_prefix(whole, middle),
        crate::bytes::has_prefix(middle, start),
    ensures
        crate::bytes::has_prefix(whole, start),
{
    assert(whole.subrange(0, start.len() as int) =~= middle.subrange(0, start.len() as int));
}

/// The samples come after sections that leave room for them.
proof fn lemma_sections_keep_samples(
    collector: CollectorModel,
    available: nat,
    shown: Seq<u64>,
    samples: Seq<u8>,
    markers: Seq<u8>,
) -> (before: Seq<u8>)
    ensures
        before.len() <= available,
        crate::bytes::has_prefix(
            collector.sections(available, shown, samples, markers).body,
            before + samples,
        ),
{
    let newline = collector.newline;
    let none = Sections { body: Seq::empty(), retained: shown, available };
    let outcome = none.with_bucket(collector.buckets[1], newline, shown);
    let diagnostics = outcome.with_bucket(collector.buckets[0], newline, shown);
    let ranked = diagnostics.with_bucket(collector.buckets[3], newline, shown);
    lemma_bucket_fits(none, collector.buckets[1], newline, shown);
    lemma_bucket_fits(outcome, collector.buckets[0], newline, shown);
    lemma_bucket_fits(diagnostics, collector.buckets[3], newline, shown);
    let sampled = Sections { body: ranked.body + samples, ..ranked };
    let structured = sampled.with_bucket(collector.buckets[2], newline, shown);
    lemma_bucket_fits(sampled, collector.buckets[2], newline, shown);
    let noted = if markers.len() <= structured.available {
        Sections {
            body: structured.body + markers,
            available: less(structured.available, markers.len()),
            ..structured
        }
    } else {
        structured
    };
    assert(noted.body.subrange(0, structured.body.len() as int) =~= structured.body);
    lemma_bucket_fits(noted, collector.buckets[4], newline, shown);
    let whole = noted.with_bucket(collector.buckets[4], newline, shown);
    lemma_prefix_of_prefix(noted.body, structured.body, sampled.body);
    lemma_prefix_of_prefix(whole.body, noted.body, sampled.body);
    ranked.body
}

/// A summary that leaves lines out still shows the whole samples of the diagnostic terms, where
/// these and the opening lines fit the budget together.
pub proof fn lemma_summary_keeps_samples(
    collector: CollectorModel,
    recovery: Option<MarkerModel>,
    registered: Seq<bool>,
    success: bool,
)
    requires
        collector.omitted_lines(recovery, registered, success) > 0,
        collector.opening(collector.total_lines, registered, recovery).len() + term_samples(
            collector.samples(),
            collector.newline,
        ).len() <= collector.policy.max_output_bytes,
    ensures
        crate::bytes::has_infix(
            collector.summary(recovery, registered, success),
            term_samples(collector.samples(), collector.newline),
        ),
{
    let samples = term_samples(collector.samples(), collector.newline);
    let summary = collector.summary(recovery, registered, success);
    if collector.samples().len() == 0 {
        assert(summary.subrange(0, 0) =~= samples);
        assert(crate::bytes::occurs_at(summary, samples, 0));
    } else {
        let limit = collector.output_limit(recovery, registered, success);
        let omitted = collector.omitted_lines(recovery, registered, success);
        let opening = collector.opening(omitted, registered, recovery);
        let reserved = collector.opening(collector.total_lines, registered, recovery);
        let available = less(less(limit, reserved.len()), samples.len());
        lemma_fewer_omitted_is_shorter(collector, omitted, registered, recovery);
        reveal(CollectorModel::summary_sections);
        let before = lemma_sections_keep_samples(
            collector,
            available,
            first_lines(collector.samples()),
            samples,
            structural_markers(
                collector.noise_lines,
                collector.truncated_lines,
                collector.newline,
                recovery is None,
            ),
        );
        let body = collector.summary_sections(recovery, registered, success).body;
        lemma_cut_keeps_middle(opening, before, samples, body, limit);
    }
}

proof fn lemma_cut_keeps_middle(
    opening: Seq<u8>,
    before: Seq<u8>,
    samples: Seq<u8>,
    body: Seq<u8>,
    limit: nat,
)
    requires
        opening.len() + before.len() + samples.len() <= limit,
        crate::bytes::has_prefix(body, before + samples),
    ensures
        crate::bytes::has_infix(first_bytes(opening + body, limit), samples),
{
    let whole = first_bytes(opening + body, limit);
    let at = (opening.len() + before.len()) as int;
    let start = before + samples;
    assert forall|i: int| 0 <= i < samples.len() implies whole[at + i] == samples[i] by {
        assert(body.subrange(0, start.len() as int)[before.len() + i] == start[before.len() + i]);
    }
    assert(whole.subrange(at, at + samples.len()) =~= samples);
    assert(crate::bytes::occurs_at(whole, samples, at));
}

/// Some record begins on this line.
pub open spec fn begins_on(records: Seq<RecordModel>, line: u64) -> bool {
    exists|i: int| 0 <= i < records.len() && (#[trigger] records[i]).span.first_line == line
}

proof fn lemma_present_record(records: Seq<Option<RecordModel>>, index: int)
    requires
        0 <= index < records.len(),
        records[index] is Some,
    ensures
        present(records).contains(records[index]->0),
    decreases records.len(),
{
    let rest = present(records.drop_last());
    if index < records.len() - 1 {
        assert(records.drop_last()[index] == records[index]);
        lemma_present_record(records.drop_last(), index);
        let at = choose|at: int| 0 <= at < rest.len() && rest[at] == records[index]->0;
        assert(present(records)[at] == records[index]->0);
    } else {
        assert(present(records)[rest.len() as int] == records[index]->0);
    }
}

proof fn lemma_each_line_is_kept(records: Seq<RecordModel>, index: int)
    requires
        0 <= index < records.len(),
    ensures
        begins_on(one_per_line(records), records[index].span.first_line),
    decreases records.len(),
{
    let line = records[index].span.first_line;
    let rest = one_per_line(records.drop_last());
    let kept = one_per_line(records);
    if index < records.len() - 1 {
        assert(records.drop_last()[index] == records[index]);
        lemma_each_line_is_kept(records.drop_last(), index);
        let at = choose|at: int| 0 <= at < rest.len() && (#[trigger] rest[at]).span.first_line
            == line;
        assert(kept[at] == rest[at]);
    } else if kept == rest {
        assert(kept[kept.len() - 1].span.first_line == line);
    } else {
        assert(kept[rest.len() as int].span.first_line == line);
    }
}

/// Once a line names a diagnostic term, the term has a sample, which later lines do not replace,
/// and the samples hold a record of the line that the sample was taken from.
pub proof fn lemma_seen_term_has_a_sample(
    collector: CollectorModel,
    line_number: u64,
    line: LineModel,
    class: EvidenceClass,
    term: int,
)
    requires
        0 <= term < collector.priority_terms.len(),
    ensures
        ({
            let next = collector.observed(line_number, line, class);
            let named = super::classify::names_registered_term(line.prefix) || (line.truncated
                && super::classify::names_registered_term(line.ending_bytes()));
            let shown = rendered_line(
                line,
                collector.policy.max_line_bytes as nat,
                class == EvidenceClass::Diagnostic || class == EvidenceClass::Example || class
                    == EvidenceClass::Noise,
            );
            &&& collector.priority_terms[term] is Some ==> next.priority_terms[term]
                == collector.priority_terms[term]
            &&& named && crate::bytes::has_infix_folded(
                shown,
                lit(super::classify::registered_terms()[term]),
            ) ==> next.priority_terms[term] is Some
            &&& next.priority_terms[term] matches Some(record) ==> begins_on(
                next.samples(),
                record.span.first_line,
            )
        }),
{
    let next = collector.observed(line_number, line, class);
    if let Some(record) = next.priority_terms[term] {
        let found = present(next.priority_terms);
        let ordered = by_line(found);
        lemma_present_record(next.priority_terms, term);
        lemma_by_line_orders(found);
        assert(ordered.contains(record)) by {
            broadcast use vstd::seq_lib::group_to_multiset_ensures;

            assert(found.to_multiset().contains(record));
        }
        let at = choose|at: int| 0 <= at < ordered.len() && ordered[at] == record;
        lemma_each_line_is_kept(ordered, at);
    }
}

/// A sample of one line up to `last_line`, in at most 44 bytes.
pub open spec fn is_short_sample(record: RecordModel, last_line: u64) -> bool {
    &&& record.repeats <= 1
    &&& record.span.first_line == record.span.last_line
    &&& record.span.first_line <= last_line
    &&& crate::bytes::without_line_ending(record.body).len() <= 44
}

/// There is a slot for each of the five terms, and what they hold is short.
pub open spec fn has_short_samples(collector: CollectorModel, last_line: u64) -> bool {
    &&& collector.priority_terms.len() == 5
    &&& forall|i: int|
        0 <= i < 5 ==> ((#[trigger] collector.priority_terms[i]) matches Some(record)
            ==> is_short_sample(record, last_line))
}

proof fn lemma_excerpt_is_short(record: RecordModel, term: Seq<u8>)
    ensures
        crate::bytes::without_line_ending(excerpt(record, term).body).len() <= 44,
{
    let body = crate::bytes::folded(crate::bytes::without_line_ending(record.body));
    let wanted = crate::bytes::folded(term);
    if crate::bytes::has_infix(body, wanted) {
        let at = choose|at: int| #[trigger] crate::bytes::occurs_at(body, wanted, at);
        crate::bytes::lemma_occurs_first(body, wanted, at);
    }
    reveal_strlit("[...] ");
    reveal_strlit(" [...]");
    vstd::utf8::is_ascii_chars_encode_utf8("[...] "@);
    vstd::utf8::is_ascii_chars_encode_utf8(" [...]"@);
}

/// The samples of the terms stay short, whatever lines are observed.
pub proof fn lemma_samples_stay_short(
    collector: CollectorModel,
    line_number: u64,
    line: LineModel,
    class: EvidenceClass,
    last_line: u64,
)
    requires
        has_short_samples(collector, last_line),
        line_number <= last_line,
    ensures
        has_short_samples(collector.observed(line_number, line, class), last_line),
{
    let next = collector.observed(line_number, line, class);
    assert forall|i: int| 0 <= i < 5 implies ((#[trigger] next.priority_terms[i]) matches Some(
        record,
    ) ==> is_short_sample(record, last_line)) by {
        if next.priority_terms[i] != collector.priority_terms[i] {
            let shown = rendered_line(
                line,
                collector.policy.max_line_bytes as nat,
                class == EvidenceClass::Diagnostic || class == EvidenceClass::Example || class
                    == EvidenceClass::Noise,
            );
            let record = RecordModel {
                span: SourceSpan { first_line: line_number, last_line: line_number },
                body: shown,
                repeats: 1,
            };
            lemma_excerpt_is_short(record, lit(super::classify::registered_terms()[i]));
        }
    }
}

proof fn lemma_short_decimal(value: nat)
    requires
        value < 10_000_000_000_000_000,
    ensures
        crate::bytes::decimal(value).len() <= 16,
{
    crate::bytes::lemma_decimal_len_monotone(value, 9_999_999_999_999_999);
    assert(crate::bytes::decimal(9_999_999_999_999_999).len() == 16) by {
        reveal_with_fuel(crate::bytes::decimal, 17);
    }
}

proof fn lemma_present_are_short(records: Seq<Option<RecordModel>>, last_line: u64)
    requires
        forall|i: int|
            0 <= i < records.len() ==> ((#[trigger] records[i]) matches Some(record)
                ==> is_short_sample(record, last_line)),
    ensures
        present(records).len() <= records.len(),
        forall|i: int|
            0 <= i < present(records).len() ==> is_short_sample(
                #[trigger] present(records)[i],
                last_line,
            ),
    decreases records.len(),
{
    if records.len() > 0 {
        let rest = records.drop_last();
        assert forall|i: int| 0 <= i < rest.len() implies ((#[trigger] rest[i]) matches Some(record)
            ==> is_short_sample(record, last_line)) by {
            assert(rest[i] == records[i]);
        }
        lemma_present_are_short(rest, last_line);
        assert(records[records.len() - 1] == records.last());
    }
}

proof fn lemma_kept_are_short(records: Seq<RecordModel>, last_line: u64)
    requires
        forall|i: int|
            0 <= i < records.len() ==> is_short_sample(#[trigger] records[i], last_line),
    ensures
        one_per_line(records).len() <= records.len(),
        forall|i: int|
            0 <= i < one_per_line(records).len() ==> is_short_sample(
                #[trigger] one_per_line(records)[i],
                last_line,
            ),
    decreases records.len(),
{
    if records.len() > 0 {
        let rest = records.drop_last();
        assert forall|i: int| 0 <= i < rest.len() implies is_short_sample(
            #[trigger] rest[i],
            last_line,
        ) by {
            assert(rest[i] == records[i]);
        }
        lemma_kept_are_short(rest, last_line);
        assert(is_short_sample(records[records.len() - 1], last_line));
    }
}

proof fn lemma_short_records_len(records: Seq<RecordModel>, newline: Seq<u8>, last_line: u64)
    requires
        newline.len() <= 2,
        last_line < 10_000_000_000_000_000,
        forall|i: int|
            0 <= i < records.len() ==> is_short_sample(#[trigger] records[i], last_line),
    ensures
        record_texts(records, newline).len() <= records.len() * 65,
    decreases records.len(),
{
    if records.len() > 0 {
        let rest = records.drop_last();
        let record = records.last();
        assert forall|i: int| 0 <= i < rest.len() implies is_short_sample(
            #[trigger] rest[i],
            last_line,
        ) by {
            assert(rest[i] == records[i]);
        }
        lemma_short_records_len(rest, newline, last_line);
        assert(is_short_sample(records[records.len() - 1], last_line));
        lemma_short_decimal(record.span.first_line as nat);
        reveal_strlit("L");
        reveal_strlit(": ");
        vstd::utf8::is_ascii_chars_encode_utf8("L"@);
        vstd::utf8::is_ascii_chars_encode_utf8(": "@);
        assert(super::bucket::record_text(record, newline).len() <= 65);
    }
}

proof fn lemma_samples_len(collector: CollectorModel, last_line: u64)
    requires
        has_short_samples(collector, last_line),
        collector.newline.len() <= 2,
        last_line < 10_000_000_000_000_000,
    ensures
        term_samples(collector.samples(), collector.newline).len() <= 352,
{
    let found = present(collector.priority_terms);
    let ordered = by_line(found);
    lemma_present_are_short(collector.priority_terms, last_line);
    lemma_by_line_orders(found);
    assert forall|i: int| 0 <= i < ordered.len() implies is_short_sample(
        #[trigger] ordered[i],
        last_line,
    ) by {
        broadcast use vstd::seq_lib::group_to_multiset_ensures;

        assert(ordered.contains(ordered[i]));
        assert(ordered.to_multiset().contains(ordered[i]));
        assert(found.contains(ordered[i]));
        let j = choose|j: int| 0 <= j < found.len() && found[j] == ordered[i];
        assert(is_short_sample(found[j], last_line));
    }
    lemma_kept_are_short(ordered, last_line);
    lemma_short_records_len(collector.samples(), collector.newline, last_line);
    assert(collector.samples().len() * 65 <= 5 * 65) by (nonlinear_arith)
        requires
            collector.samples().len() <= 5,
    ;
    reveal_strlit("== source term samples ==");
    vstd::utf8::is_ascii_chars_encode_utf8("== source term samples =="@);
}

/// A marker whose texts are as short as those of every archived source.
pub open spec fn is_short_marker(marker: MarkerModel) -> bool {
    &&& vstd::utf8::encode_utf8(marker.archive_ref).len() <= 35
    &&& vstd::utf8::encode_utf8(marker.source).len() <= 13
    &&& vstd::utf8::encode_utf8(marker.completeness).len() <= 10
}

proof fn lemma_short_opening_len(
    collector: CollectorModel,
    registered: Seq<bool>,
    recovery: Option<MarkerModel>,
)
    requires
        vstd::utf8::encode_utf8(collector.family).len() <= 11,
        collector.newline.len() <= 2,
        recovery matches Some(marker) ==> is_short_marker(marker),
        collector.total_lines < 10_000_000_000_000_000,
        collector.truncated_lines < 10_000_000_000_000_000,
    ensures
        collector.opening(collector.total_lines, registered, recovery).len() <= 348,
{
    lemma_short_decimal(collector.total_lines as nat);
    lemma_short_decimal(collector.truncated_lines as nat);
    lemma_suffix_len(registered);
    let omission = omission_text(collector.total_lines, collector.truncated_lines);
    assert(omission.len() <= 68) by {
        reveal_strlit("exact output archived");
        reveal_strlit("omitted ");
        reveal_strlit(" line(s)");
        reveal_strlit(" line(s), truncated ");
        vstd::utf8::is_ascii_chars_encode_utf8("exact output archived"@);
        vstd::utf8::is_ascii_chars_encode_utf8("omitted "@);
        vstd::utf8::is_ascii_chars_encode_utf8(" line(s)"@);
        vstd::utf8::is_ascii_chars_encode_utf8(" line(s), truncated "@);
    }
    assert(recovery_text(
        collector.newline,
        collector.total_lines,
        collector.truncated_lines,
        recovery,
    ).len() <= 234) by {
        reveal(recovery_text);
        reveal_strlit("[yarp: ");
        reveal_strlit("; ref=");
        reveal_strlit("; ");
        reveal_strlit(" ");
        reveal_strlit("]");
        reveal_strlit("Search omitted output: yarp search ");
        reveal_strlit(" 'term|alternate'");
        vstd::utf8::is_ascii_chars_encode_utf8("[yarp: "@);
        vstd::utf8::is_ascii_chars_encode_utf8("; ref="@);
        vstd::utf8::is_ascii_chars_encode_utf8("; "@);
        vstd::utf8::is_ascii_chars_encode_utf8(" "@);
        vstd::utf8::is_ascii_chars_encode_utf8("]"@);
        vstd::utf8::is_ascii_chars_encode_utf8("Search omitted output: yarp search "@);
        vstd::utf8::is_ascii_chars_encode_utf8(" 'term|alternate'"@);
    }
    reveal_strlit("[yarp summary: ");
    reveal_strlit("; source_lines=");
    reveal_strlit("]");
    vstd::utf8::is_ascii_chars_encode_utf8("[yarp summary: "@);
    vstd::utf8::is_ascii_chars_encode_utf8("; source_lines="@);
    vstd::utf8::is_ascii_chars_encode_utf8("]"@);
}

/// Every budget that a valid policy can set holds the opening lines and the samples of all
/// diagnostic terms, for any output of less than 10^16 lines. A summary that leaves lines out
/// therefore shows them whole.
pub proof fn lemma_budget_holds_mandatory_evidence(
    collector: CollectorModel,
    recovery: Option<MarkerModel>,
    registered: Seq<bool>,
    success: bool,
    last_line: u64,
)
    requires
        collector.policy.max_output_bytes >= 704,
        vstd::utf8::encode_utf8(collector.family).len() <= 11,
        collector.newline.len() <= 2,
        recovery matches Some(marker) ==> is_short_marker(marker),
        collector.total_lines < 10_000_000_000_000_000,
        collector.truncated_lines < 10_000_000_000_000_000,
        last_line < 10_000_000_000_000_000,
        has_short_samples(collector, last_line),
    ensures
        collector.opening(collector.total_lines, registered, recovery).len() + term_samples(
            collector.samples(),
            collector.newline,
        ).len() <= collector.policy.max_output_bytes,
        collector.omitted_lines(recovery, registered, success) > 0 ==> crate::bytes::has_infix(
            collector.summary(recovery, registered, success),
            term_samples(collector.samples(), collector.newline),
        ),
{
    lemma_short_opening_len(collector, registered, recovery);
    lemma_samples_len(collector, last_line);
    if collector.omitted_lines(recovery, registered, success) > 0 {
        lemma_summary_keeps_samples(collector, recovery, registered, success);
    }
}

/// A line as it is observed: its number, what it holds and its class.
#[verifier::ext_equal]
pub struct ObservedLine {
    pub number: u64,
    pub line: LineModel,
    pub class: EvidenceClass,
}

/// The collector after some lines.
pub open spec fn observed_lines(collector: CollectorModel, lines: Seq<ObservedLine>) -> CollectorModel
    decreases lines.len(),
{
    if lines.len() == 0 {
        collector
    } else {
        observed_lines(collector, lines.drop_last()).observed(
            lines.last().number,
            lines.last().line,
            lines.last().class,
        )
    }
}

/// A line that reports no problem, with an ending of at most two bytes.
pub open spec fn is_quiet(observed: ObservedLine) -> bool {
    &&& observed.class != EvidenceClass::Diagnostic
    &&& !super::classify::names_registered_term(observed.line.prefix)
    &&& observed.line.truncated ==> !super::classify::names_registered_term(
        observed.line.ending_bytes(),
    )
    &&& observed.line.line_ending.len() <= 2
}

proof fn lemma_quiet_lines_leave_no_trace(
    family: Seq<char>,
    policy: OutputPolicy,
    lines: Seq<ObservedLine>,
)
    requires
        forall|i: int| 0 <= i < lines.len() ==> is_quiet(#[trigger] lines[i]),
    ensures
        ({
            let collector = observed_lines(CollectorModel::fresh(family, policy), lines);
            &&& collector.family == family
            &&& collector.policy == policy
            &&& collector.newline.len() <= 2
            &&& collector.buckets.len() == 5
            &&& collector.buckets[0].total == 0
            &&& collector.priority_terms.len() == 5
            &&& forall|i: int| 0 <= i < 5 ==> (#[trigger] collector.priority_terms[i]) is None
        }),
    decreases lines.len(),
{
    if lines.len() == 0 {
        reveal_strlit("\n");
        vstd::utf8::is_ascii_chars_encode_utf8("\n"@);
    } else {
        let rest = lines.drop_last();
        assert forall|i: int| 0 <= i < rest.len() implies is_quiet(#[trigger] rest[i]) by {
            assert(rest[i] == lines[i]);
        }
        lemma_quiet_lines_leave_no_trace(family, policy, rest);
        assert(is_quiet(lines[lines.len() - 1]));
    }
}

proof fn lemma_nothing_present(records: Seq<Option<RecordModel>>)
    requires
        forall|i: int| 0 <= i < records.len() ==> (#[trigger] records[i]) is None,
    ensures
        present(records).len() == 0,
    decreases records.len(),
{
    if records.len() > 0 {
        let rest = records.drop_last();
        assert forall|i: int| 0 <= i < rest.len() implies (#[trigger] rest[i]) is None by {
            assert(rest[i] == records[i]);
        }
        lemma_nothing_present(rest);
        assert(records[records.len() - 1] is None);
    }
}

proof fn lemma_plain_opening_len(collector: CollectorModel, registered: Seq<bool>)
    requires
        vstd::utf8::encode_utf8(collector.family).len() <= 11,
        collector.newline.len() <= 2,
    ensures
        collector.opening(collector.total_lines, registered, None).len() <= 204,
{
    lemma_suffix_len(registered);
    lemma_omission_text_len(collector.total_lines, collector.truncated_lines);
    crate::bytes::lemma_decimal_len_u64(collector.total_lines as nat);
    reveal(recovery_text);
    reveal_strlit("[yarp summary: ");
    reveal_strlit("; source_lines=");
    reveal_strlit("[yarp: ");
    reveal_strlit("]");
    vstd::utf8::is_ascii_chars_encode_utf8("[yarp summary: "@);
    vstd::utf8::is_ascii_chars_encode_utf8("; source_lines="@);
    vstd::utf8::is_ascii_chars_encode_utf8("[yarp: "@);
    vstd::utf8::is_ascii_chars_encode_utf8("]"@);
}

/// The summary of a success that reports no problem takes at most 512 bytes, where no line has an
/// ending of more than two bytes.
pub proof fn lemma_quiet_success_is_compact(
    family: Seq<char>,
    policy: OutputPolicy,
    lines: Seq<ObservedLine>,
    registered: Seq<bool>,
)
    requires
        vstd::utf8::encode_utf8(family).len() <= 11,
        policy.max_output_bytes >= 512,
        registered.len() == 5,
        forall|i: int| 0 <= i < 5 ==> !#[trigger] registered[i],
        forall|i: int| 0 <= i < lines.len() ==> is_quiet(#[trigger] lines[i]),
    ensures
        observed_lines(CollectorModel::fresh(family, policy), lines).summary(
            None,
            registered,
            true,
        ).len() <= 512,
{
    let collector = observed_lines(CollectorModel::fresh(family, policy), lines);
    lemma_quiet_lines_leave_no_trace(family, policy, lines);
    lemma_nothing_present(collector.priority_terms);
    assert(collector.samples() =~= Seq::empty());
    assert(reported_terms(registered, 5).len() == 0) by {
        reveal_with_fuel(reported_terms, 6);
    }
    lemma_plain_opening_len(collector, registered);
    lemma_summary_within_budget(collector, None, registered, true);
}

} // verus!
