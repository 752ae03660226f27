//! Bounded records of one evidence class.
use vstd::prelude::*;

use super::bounded::{first_bytes, saturated};
use super::evidence::{EvidenceClass, SourceSpan};
use crate::bytes::{append, append_decimal, append_text, copy, lit, same_bytes, strip_line_ending};

verus! {

/// One more, but at most the largest value.
pub open spec fn one_more(value: u64) -> u64 {
    if value == u64::MAX {
        value
    } else {
        (value + 1) as u64
    }
}

/// `value - count`, but at least zero.
pub open spec fn fewer(value: u64, count: nat) -> u64 {
    if value > count {
        (value - count) as u64
    } else {
        0
    }
}

/// One retained line and how often it was seen.
#[derive(Debug)]
pub struct EvidenceRecord {
    pub span: SourceSpan,
    pub body: Vec<u8>,
    pub repeats: u64,
}

/// The contents of an [`EvidenceRecord`].
#[verifier::ext_equal]
pub struct RecordModel {
    pub span: SourceSpan,
    pub body: Seq<u8>,
    pub repeats: u64,
}

impl View for EvidenceRecord {
    type V = RecordModel;

    open spec fn view(&self) -> RecordModel {
        RecordModel { span: self.span, body: self.body@, repeats: self.repeats }
    }
}

impl EvidenceRecord {
    /// An equal record.
    pub fn duplicate(&self) -> (record: EvidenceRecord)
        ensures
            record@ == self@,
    {
        EvidenceRecord {
            span: self.span,
            body: copy(self.body.as_slice()),
            repeats: self.repeats,
        }
    }
}

/// The contents of some records.
pub open spec fn record_models(records: Seq<EvidenceRecord>) -> Seq<RecordModel> {
    records.map_values(|record: EvidenceRecord| record@)
}

/// The contents of some borrowed records.
pub open spec fn borrowed_models(records: Seq<&EvidenceRecord>) -> Seq<RecordModel> {
    records.map_values(|record: &EvidenceRecord| record@)
}

/// The bytes that some records hold.
pub open spec fn held_bytes(records: Seq<RecordModel>) -> nat
    decreases records.len(),
{
    if records.len() == 0 {
        0
    } else {
        held_bytes(records.drop_last()) + records.last().body.len()
    }
}

/// The first two words of a record's fingerprint.
pub open spec fn fingerprint_words(body: Seq<u8>) -> (u64, u64)
    decreases body.len(),
{
    if body.len() == 0 {
        (0xcbf2_9ce4_8422_2325u64, 0x9e37_79b9_7f4a_7c15u64)
    } else {
        let (first, second) = fingerprint_words(body.drop_last());
        let byte = body.last() as u64;
        let mixed = second ^ ((byte + 0x9e37_79b9) as u64);
        (
            (first ^ byte).wrapping_mul(0x0000_0100_0000_01b3u64),
            ((mixed << 7) | (mixed >> 57)).wrapping_mul(0xbf58_476d_1ce4_e5b9u64),
        )
    }
}

/// The fingerprint of a record's body.
pub open spec fn fingerprint_of(body: Seq<u8>) -> (u64, u64, usize) {
    let (first, second) = fingerprint_words(body);
    (first, second, body.len() as usize)
}

/// Compute the fingerprint of a record's body.
pub fn record_fingerprint(body: &[u8]) -> (fingerprint: (u64, u64, usize))
    ensures
        fingerprint == fingerprint_of(body@),
{
    let mut first: u64 = 0xcbf2_9ce4_8422_2325u64;
    let mut second: u64 = 0x9e37_79b9_7f4a_7c15u64;
    let mut i: usize = 0;
    while i < body.len()
        invariant
            i <= body.len(),
            (first, second) == fingerprint_words(body@.take(i as int)),
        decreases body.len() - i,
    {
        let byte: u64 = body[i] as u64;
        first = (first ^ byte).wrapping_mul(0x0000_0100_0000_01b3u64);
        let mixed: u64 = second ^ (byte + 0x9e37_79b9);
        second = ((mixed << 7) | (mixed >> 57)).wrapping_mul(0xbf58_476d_1ce4_e5b9u64);
        assert(body@.take(i + 1).drop_last() =~= body@.take(i as int));
        i += 1;
    }
    assert(body@.take(body@.len() as int) =~= body@);
    (first, second, body.len())
}

/// The index of the first record with this body.
pub open spec fn matching_record(records: Seq<RecordModel>, body: Seq<u8>, from: int) -> Option<int>
    decreases records.len() - from,
{
    if from < 0 || from >= records.len() {
        None
    } else if records[from].body == body {
        Some(from)
    } else {
        matching_record(records, body, from + 1)
    }
}

/// The record after it was seen once more, on `last_line`.
pub open spec fn seen_again(record: RecordModel, last_line: u64) -> RecordModel {
    RecordModel {
        span: SourceSpan { first_line: record.span.first_line, last_line },
        body: record.body,
        repeats: one_more(record.repeats),
    }
}

/// The smaller of an optional line number and `line`.
pub open spec fn earliest(current: Option<u64>, line: u64) -> Option<u64> {
    match current {
        Some(value) if value < line => Some(value),
        _ => Some(line),
    }
}

/// The larger of an optional line number and `line`.
pub open spec fn latest(current: Option<u64>, line: u64) -> Option<u64> {
    match current {
        Some(value) if value > line => Some(value),
        _ => Some(line),
    }
}

/// What a [`Bucket`] remembers.
#[verifier::ext_equal]
pub struct BucketModel {
    pub class: EvidenceClass,
    pub head: Seq<RecordModel>,
    pub tail: Seq<RecordModel>,
    pub head_budget: nat,
    pub tail_budget: nat,
    pub total: u64,
    pub fingerprints: Seq<(u64, u64, usize)>,
    pub first_omitted: Option<u64>,
    pub last_omitted: Option<u64>,
}

impl BucketModel {
    /// A bucket without records; half of the budget goes to each end.
    pub open spec fn fresh(class: EvidenceClass, budget: nat) -> BucketModel {
        BucketModel {
            class,
            head: Seq::empty(),
            tail: Seq::empty(),
            head_budget: budget / 2,
            tail_budget: (budget - budget / 2) as nat,
            total: 0,
            fingerprints: Seq::empty(),
            first_omitted: None,
            last_omitted: None,
        }
    }

    /// The records stay within their counts and their byte budgets.
    pub open spec fn bounded(self) -> bool {
        &&& self.head.len() <= 64
        &&& self.tail.len() <= 64
        &&& held_bytes(self.head) <= self.head_budget
        &&& held_bytes(self.tail) <= self.tail_budget
        &&& self.fingerprints.len() <= 128
        &&& self.head_budget + self.tail_budget <= usize::MAX
        &&& self.head_budget <= self.tail_budget <= self.head_budget + 1
    }

    /// All retained records, the early ones first.
    pub open spec fn records(self) -> Seq<RecordModel> {
        self.head + self.tail
    }

    /// The retained record that one more line repeats.
    pub open spec fn repeated(self, body: Seq<u8>) -> Option<int> {
        if self.fingerprints.contains(fingerprint_of(body)) {
            matching_record(self.records(), body, 0)
        } else {
            None
        }
    }

    /// The bucket after one more line that repeats record `index`.
    pub open spec fn with_repeat(self, index: int, last_line: u64) -> BucketModel {
        if index < self.head.len() {
            BucketModel {
                head: self.head.update(index, seen_again(self.head[index], last_line)),
                total: one_more(self.total),
                ..self
            }
        } else {
            let place = index - self.head.len();
            BucketModel {
                tail: self.tail.update(place, seen_again(self.tail[place], last_line)),
                total: one_more(self.total),
                ..self
            }
        }
    }

    /// The bucket after it left out some source lines.
    pub open spec fn without(self, span: SourceSpan) -> BucketModel {
        BucketModel {
            first_omitted: earliest(self.first_omitted, span.first_line),
            last_omitted: latest(self.last_omitted, span.last_line),
            ..self
        }
    }

    /// The bucket after its oldest late records made room for `need` bytes.
    pub open spec fn with_room(self, need: nat) -> BucketModel
        decreases self.tail.len(),
    {
        if self.tail.len() > 0 && (self.tail.len() >= 64 || held_bytes(self.tail) + need
            > self.tail_budget) {
            (BucketModel { tail: self.tail.drop_first(), ..self }).without(
                self.tail[0].span,
            ).with_room(need)
        } else {
            self
        }
    }

    /// The bucket with a new record: among the early ones while there is room, else among the
    /// late ones, else left out.
    pub open spec fn with_record(self, record: RecordModel) -> BucketModel {
        if self.head.len() < 64 && held_bytes(self.head) + record.body.len() <= self.head_budget {
            BucketModel { head: self.head.push(record), ..self }
        } else if record.body.len() > self.tail_budget {
            self.without(record.span)
        } else {
            let roomy = self.with_room(record.body.len());
            BucketModel { tail: roomy.tail.push(record), ..roomy }
        }
    }

    /// The bucket after one more line.
    pub open spec fn observed(self, span: SourceSpan, body: Seq<u8>) -> BucketModel {
        match self.repeated(body) {
            Some(index) => self.with_repeat(index, span.last_line),
            None => {
                let fingerprint = fingerprint_of(body);
                (BucketModel {
                    total: one_more(self.total),
                    fingerprints: if !self.fingerprints.contains(fingerprint)
                        && self.fingerprints.len() < 128 {
                        self.fingerprints.push(fingerprint)
                    } else {
                        self.fingerprints
                    },
                    ..self
                }).with_record(RecordModel { span, body, repeats: 1 })
            },
        }
    }
}

/// `record` in its place among records that are ordered by line; after those of the same line.
pub open spec fn placed(ordered: Seq<RecordModel>, record: RecordModel) -> Seq<RecordModel>
    decreases ordered.len(),
{
    if ordered.len() == 0 || ordered.last().span.first_line <= record.span.first_line {
        ordered.push(record)
    } else {
        placed(ordered.drop_last(), record).push(ordered.last())
    }
}

/// The records in the order of their first lines.
pub open spec fn by_line(records: Seq<RecordModel>) -> Seq<RecordModel>
    decreases records.len(),
{
    if records.len() == 0 {
        Seq::empty()
    } else {
        placed(by_line(records.drop_last()), records.last())
    }
}

/// The records are ordered by their first lines.
pub open spec fn ordered_by_line(records: Seq<RecordModel>) -> bool {
    forall|i: int, j: int|
        0 <= i <= j < records.len() ==> (#[trigger] records[i]).span.first_line <= (
        #[trigger] records[j]).span.first_line
}

/// No record begins after `line`.
spec fn lines_at_most(records: Seq<RecordModel>, line: u64) -> bool {
    forall|i: int| 0 <= i < records.len() ==> (#[trigger] records[i]).span.first_line <= line
}

proof fn lemma_placed(ordered: Seq<RecordModel>, record: RecordModel)
    requires
        ordered_by_line(ordered),
    ensures
        ordered_by_line(placed(ordered, record)),
        placed(ordered, record).to_multiset() == ordered.push(record).to_multiset(),
        placed(ordered, record).len() == ordered.len() + 1,
        forall|line: u64|
            lines_at_most(ordered, line) && record.span.first_line <= line
                ==> #[trigger] lines_at_most(placed(ordered, record), line),
    decreases ordered.len(),
{
    broadcast use vstd::seq_lib::group_to_multiset_ensures;

    if ordered.len() > 0 && ordered.last().span.first_line > record.span.first_line {
        let rest = ordered.drop_last();
        lemma_placed(rest, record);
        let below = placed(rest, record);
        assert(ordered =~= rest.push(ordered.last()));
        assert(lines_at_most(rest, ordered.last().span.first_line));
        assert(lines_at_most(below, ordered.last().span.first_line));
        assert forall|line: u64|
            lines_at_most(ordered, line) && record.span.first_line
                <= line implies #[trigger] lines_at_most(placed(ordered, record), line) by {
            assert(lines_at_most(rest, line));
            assert(lines_at_most(below, line));
            assert(ordered[ordered.len() - 1].span.first_line <= line);
        }
        assert(rest.push(record).to_multiset().insert(ordered.last()) =~= rest.to_multiset().insert(
            record,
        ).insert(ordered.last()));
        assert(ordered.push(record).to_multiset() =~= rest.to_multiset().insert(
            ordered.last(),
        ).insert(record));
    }
}

/// Ordering by line keeps every record, once each.
pub proof fn lemma_by_line_orders(records: Seq<RecordModel>)
    ensures
        ordered_by_line(by_line(records)),
        by_line(records).to_multiset() == records.to_multiset(),
        by_line(records).len() == records.len(),
    decreases records.len(),
{
    broadcast use vstd::seq_lib::group_to_multiset_ensures;

    if records.len() > 0 {
        let rest = records.drop_last();
        lemma_by_line_orders(rest);
        lemma_placed(by_line(rest), records.last());
        assert(records =~= rest.push(records.last()));
        assert(by_line(rest).push(records.last()).to_multiset() =~= records.to_multiset());
    }
}

/// The heading of a section.
pub open spec fn section_heading(class: EvidenceClass, newline: Seq<u8>) -> Seq<u8> {
    lit("== ") + vstd::utf8::encode_utf8(class.title_text()) + lit(" ==") + newline
}

/// The note on the lines that a section leaves out.
pub open spec fn omission_note(
    class: EvidenceClass,
    omitted: u64,
    first: Option<u64>,
    last: Option<u64>,
    newline: Seq<u8>,
) -> Seq<u8> {
    if omitted == 0 {
        Seq::empty()
    } else {
        lit("[yarp: omitted ") + crate::bytes::decimal(omitted as nat) + lit(" ")
            + vstd::utf8::encode_utf8(class.title_text()) + lit(" line(s)") + (match (first, last) {
            (Some(from), Some(to)) => lit("; source lines ") + crate::bytes::decimal(from as nat)
                + lit(":") + crate::bytes::decimal(to as nat),
            _ => Seq::empty(),
        }) + lit("]") + newline
    }
}

/// A record as a section shows it.
pub open spec fn record_text(record: RecordModel, newline: Seq<u8>) -> Seq<u8> {
    lit("L") + crate::bytes::decimal(record.span.first_line as nat) + (
    if record.span.first_line == record.span.last_line {
        Seq::empty()
    } else {
        lit("-") + crate::bytes::decimal(record.span.last_line as nat)
    }) + lit(": ") + crate::bytes::without_line_ending(record.body) + (if record.repeats > 1 {
        lit(" [repeated ") + crate::bytes::decimal(record.repeats as nat) + lit(" times]")
    } else {
        Seq::empty()
    }) + newline
}

/// Some records as a section shows them.
pub open spec fn record_texts(records: Seq<RecordModel>, newline: Seq<u8>) -> Seq<u8>
    decreases records.len(),
{
    if records.len() == 0 {
        Seq::empty()
    } else {
        record_texts(records.drop_last(), newline) + record_text(records.last(), newline)
    }
}

/// The first lines of some records.
pub open spec fn first_lines(records: Seq<RecordModel>) -> Seq<u64> {
    records.map_values(|record: RecordModel| record.span.first_line)
}

/// The records whose first line is not yet shown elsewhere.
pub open spec fn not_shown(records: Seq<RecordModel>, shown: Seq<u64>) -> Seq<RecordModel>
    decreases records.len(),
{
    if records.len() == 0 {
        Seq::empty()
    } else if shown.contains(records.last().span.first_line) {
        not_shown(records.drop_last(), shown)
    } else {
        not_shown(records.drop_last(), shown).push(records.last())
    }
}

/// Which candidates are picked, and the bytes that they take with the heading.
#[verifier::ext_equal]
pub struct Picks {
    pub picked: Seq<bool>,
    pub bytes: nat,
}

impl Picks {
    /// The picks after candidate `index` was tried: it is picked if it leaves room for the
    /// omission note.
    pub open spec fn tried(
        self,
        candidates: Seq<RecordModel>,
        index: int,
        newline: Seq<u8>,
        limit: nat,
    ) -> Picks {
        let length = record_text(candidates[index], newline).len();
        if saturated(saturated(self.bytes + length) + 128) <= limit {
            Picks { picked: self.picked.update(index, true), bytes: saturated(self.bytes + length) }
        } else {
            self
        }
    }

    /// The picks after the candidates from `first` up to `last` were tried, from both ends
    /// towards the middle.
    pub open spec fn tried_inwards(
        self,
        candidates: Seq<RecordModel>,
        first: int,
        last: int,
        newline: Seq<u8>,
        limit: nat,
    ) -> Picks
        decreases last - first,
    {
        if first >= last {
            self
        } else {
            let early = self.tried(candidates, first, newline, limit);
            if first + 1 >= last {
                early
            } else {
                early.tried(candidates, last - 1, newline, limit).tried_inwards(
                    candidates,
                    first + 1,
                    last - 1,
                    newline,
                    limit,
                )
            }
        }
    }
}

/// A section made of the picked candidates.
#[verifier::ext_equal]
pub struct Section {
    pub body: Seq<u8>,
    pub retained: Seq<u64>,
    pub first_omitted: Option<u64>,
    pub last_omitted: Option<u64>,
}

impl Section {
    /// The section with one more candidate.
    pub open spec fn with_candidate(
        self,
        record: RecordModel,
        picked: bool,
        newline: Seq<u8>,
    ) -> Section {
        if picked {
            Section {
                body: self.body + record_text(record, newline),
                retained: self.retained.push(record.span.first_line),
                ..self
            }
        } else {
            Section {
                first_omitted: earliest(self.first_omitted, record.span.first_line),
                last_omitted: latest(self.last_omitted, record.span.last_line),
                ..self
            }
        }
    }

    /// The section with the first `count` candidates.
    pub open spec fn with_candidates(
        self,
        candidates: Seq<RecordModel>,
        picked: Seq<bool>,
        count: nat,
        newline: Seq<u8>,
    ) -> Section
        decreases count,
    {
        if count == 0 {
            self
        } else {
            self.with_candidates(candidates, picked, (count - 1) as nat, newline).with_candidate(
                candidates[count - 1],
                picked[count - 1],
                newline,
            )
        }
    }
}

/// A rendered bucket.
#[verifier::ext_equal]
pub struct RenderedModel {
    pub body: Seq<u8>,
    pub retained: Seq<u64>,
}

impl BucketModel {
    /// The heading, all candidates and the note on the lines that were left out before.
    pub open spec fn complete_section(self, newline: Seq<u8>, shown: Seq<u64>) -> Seq<u8> {
        let records = by_line(self.records());
        section_heading(self.class, newline) + record_texts(not_shown(records, shown), newline)
            + omission_note(
            self.class,
            fewer(self.total, records.len()),
            self.first_omitted,
            self.last_omitted,
            newline,
        )
    }

    /// The length that the heading of a shortened section is counted with.
    pub open spec fn heading_bytes(self, newline: Seq<u8>) -> nat {
        saturated(vstd::utf8::encode_utf8(self.class.title_text()).len() + 7 + newline.len())
    }

    /// A section that cannot show all candidates: nothing if not even the heading and the
    /// omission note fit, else the candidates that fit, the outermost first. `hidden` records
    /// are shown elsewhere.
    pub open spec fn shortened(
        self,
        limit: nat,
        newline: Seq<u8>,
        candidates: Seq<RecordModel>,
        hidden: nat,
    ) -> RenderedModel {
        if limit < saturated(self.heading_bytes(newline) + 128) {
            RenderedModel { body: Seq::empty(), retained: Seq::empty() }
        } else {
            let picks = (Picks {
                picked: Seq::new(candidates.len(), |i: int| false),
                bytes: self.heading_bytes(newline),
            }).tried_inwards(candidates, 0, candidates.len() as int, newline, limit);
            let section = (Section {
                body: section_heading(self.class, newline),
                retained: Seq::empty(),
                first_omitted: self.first_omitted,
                last_omitted: self.last_omitted,
            }).with_candidates(candidates, picks.picked, candidates.len(), newline);
            RenderedModel {
                body: first_bytes(
                    section.body + omission_note(
                        self.class,
                        fewer(self.total, hidden + section.retained.len()),
                        section.first_omitted,
                        section.last_omitted,
                        newline,
                    ),
                    limit,
                ),
                retained: section.retained,
            }
        }
    }

    /// The section within `limit` bytes: complete if it fits, else shortened.
    #[verifier::opaque]
    pub open spec fn rendered(self, limit: nat, newline: Seq<u8>, shown: Seq<u64>) -> RenderedModel {
        let records = by_line(self.records());
        let candidates = not_shown(records, shown);
        let complete = self.complete_section(newline, shown);
        if self.total == 0 {
            RenderedModel { body: Seq::empty(), retained: Seq::empty() }
        } else if complete.len() <= limit {
            RenderedModel { body: complete, retained: first_lines(candidates) }
        } else {
            self.shortened(limit, newline, candidates, (records.len() - candidates.len()) as nat)
        }
    }
}

fn append_section_heading(output: &mut Vec<u8>, class: EvidenceClass, newline: &[u8])
    ensures
        final(output)@ == old(output)@ + section_heading(class, newline@),
{
    let mut heading: Vec<u8> = copy("== ".as_bytes());
    append_text(&mut heading, class.title());
    append_text(&mut heading, " ==");
    append(&mut heading, newline);
    append(output, heading.as_slice());
}

fn append_omission(
    output: &mut Vec<u8>,
    class: EvidenceClass,
    omitted: u64,
    first_omitted: Option<u64>,
    last_omitted: Option<u64>,
    newline: &[u8],
)
    ensures
        final(output)@ == old(output)@ + omission_note(
            class,
            omitted,
            first_omitted,
            last_omitted,
            newline@,
        ),
{
    if omitted == 0 {
        assert(output@ + Seq::<u8>::empty() =~= output@);
        return ;
    }
    let mut range: Vec<u8> = Vec::new();
    if let (Some(first), Some(last)) = (first_omitted, last_omitted) {
        range = copy("; source lines ".as_bytes());
        append_decimal(&mut range, first);
        append_text(&mut range, ":");
        append_decimal(&mut range, last);
    }
    let mut note: Vec<u8> = copy("[yarp: omitted ".as_bytes());
    append_decimal(&mut note, omitted);
    append_text(&mut note, " ");
    append_text(&mut note, class.title());
    append_text(&mut note, " line(s)");
    append(&mut note, range.as_slice());
    append_text(&mut note, "]");
    append(&mut note, newline);
    append(output, note.as_slice());
}

/// Append a record as a section shows it.
pub fn render_record(output: &mut Vec<u8>, record: &EvidenceRecord, newline: &[u8])
    ensures
        final(output)@ == old(output)@ + record_text(record@, newline@),
{
    let mut end: Vec<u8> = Vec::new();
    if record.span.first_line != record.span.last_line {
        end = copy("-".as_bytes());
        append_decimal(&mut end, record.span.last_line);
    }
    let mut repeats: Vec<u8> = Vec::new();
    if record.repeats > 1 {
        repeats = copy(" [repeated ".as_bytes());
        append_decimal(&mut repeats, record.repeats);
        append_text(&mut repeats, " times]");
    }
    let mut text: Vec<u8> = copy("L".as_bytes());
    append_decimal(&mut text, record.span.first_line);
    append(&mut text, end.as_slice());
    append_text(&mut text, ": ");
    append(&mut text, strip_line_ending(record.body.as_slice()));
    append(&mut text, repeats.as_slice());
    append(&mut text, newline);
    append(output, text.as_slice());
}

proof fn lemma_title_len(class: EvidenceClass)
    ensures
        vstd::utf8::encode_utf8(class.title_text()).len() <= 18,
{
    reveal_strlit("outcome");
    reveal_strlit("diagnostics");
    reveal_strlit("structure");
    reveal_strlit("diagnostic context");
    reveal_strlit("examples");
    reveal_strlit("noise");
    vstd::utf8::is_ascii_chars_encode_utf8(class.title_text());
}

fn merge_omitted_range(first: &mut Option<u64>, last: &mut Option<u64>, span: SourceSpan)
    ensures
        *final(first) == earliest(*old(first), span.first_line),
        *final(last) == latest(*old(last), span.last_line),
{
    *first = match *first {
        Some(current) if current < span.first_line => Some(current),
        _ => Some(span.first_line),
    };
    *last = match *last {
        Some(current) if current > span.last_line => Some(current),
        _ => Some(span.last_line),
    };
}

/// Put `record` in its place among records that are ordered by line.
pub fn place<'a>(ordered: &mut Vec<&'a EvidenceRecord>, record: &'a EvidenceRecord)
    ensures
        borrowed_models(final(ordered)@) == placed(borrowed_models(old(ordered)@), record@),
{
    let ghost before = borrowed_models(ordered@);
    let mut position: usize = ordered.len();
    assert(before.take(before.len() as int) =~= before);
    assert(placed(before, record@) =~= placed(before, record@) + before.skip(before.len() as int));
    while position > 0 && ordered[position - 1].span.first_line > record.span.first_line
        invariant
            position <= ordered.len(),
            before == borrowed_models(ordered@),
            placed(before, record@) == placed(before.take(position as int), record@) + before.skip(
                position as int,
            ),
        decreases position,
    {
        proof {
            let upper = before.take(position as int);
            assert(upper.last() == ordered@[position - 1]@);
            assert(upper.drop_last() =~= before.take(position - 1));
            assert(placed(upper.drop_last(), record@).push(upper.last()) + before.skip(
                position as int,
            ) =~= placed(upper.drop_last(), record@) + before.skip(position - 1));
        }
        position -= 1;
    }
    proof {
        let upper = before.take(position as int);
        if position > 0 {
            assert(upper.last() == ordered@[position - 1]@);
        }
        assert(placed(upper, record@) == upper.push(record@));
    }
    ordered.insert(position, record);
    assert(borrowed_models(ordered@) =~= before.take(position as int).push(record@) + before.skip(
        position as int,
    ));
}

fn line_is_shown(shown: &[u64], line: u64) -> (found: bool)
    ensures
        found == shown@.contains(line),
{
    let mut i: usize = 0;
    while i < shown.len()
        invariant
            i <= shown.len(),
            forall|j: int| 0 <= j < i ==> shown@[j] != line,
        decreases shown.len() - i,
    {
        if shown[i] == line {
            return true;
        }
        i += 1;
    }
    false
}

/// A rendered section and the lines that it shows.
#[derive(Debug)]
pub struct RenderedBucket {
    pub body: Vec<u8>,
    pub retained_lines: Vec<u64>,
}

impl View for RenderedBucket {
    type V = RenderedModel;

    open spec fn view(&self) -> RenderedModel {
        RenderedModel { body: self.body@, retained: self.retained_lines@ }
    }
}

/// The retained records of one class.
#[derive(Debug)]
pub struct Bucket {
    class: EvidenceClass,
    head: Vec<EvidenceRecord>,
    tail: Vec<EvidenceRecord>,
    head_bytes: usize,
    tail_bytes: usize,
    head_budget: usize,
    tail_budget: usize,
    total: u64,
    fingerprints: Vec<(u64, u64, usize)>,
    first_omitted: Option<u64>,
    last_omitted: Option<u64>,
}

impl View for Bucket {
    type V = BucketModel;

    closed spec fn view(&self) -> BucketModel {
        BucketModel {
            class: self.class,
            head: record_models(self.head@),
            tail: record_models(self.tail@),
            head_budget: self.head_budget as nat,
            tail_budget: self.tail_budget as nat,
            total: self.total,
            fingerprints: self.fingerprints@,
            first_omitted: self.first_omitted,
            last_omitted: self.last_omitted,
        }
    }
}

proof fn lemma_held_bytes_update(records: Seq<RecordModel>, index: int, record: RecordModel)
    requires
        0 <= index < records.len(),
        record.body.len() == records[index].body.len(),
    ensures
        held_bytes(records.update(index, record)) == held_bytes(records),
    decreases records.len(),
{
    let changed = records.update(index, record);
    if index < records.len() - 1 {
        assert(changed.drop_last() =~= records.drop_last().update(index, record));
        lemma_held_bytes_update(records.drop_last(), index, record);
    } else {
        assert(changed.drop_last() =~= records.drop_last());
    }
}

proof fn lemma_held_bytes_drop_first(records: Seq<RecordModel>)
    requires
        records.len() > 0,
    ensures
        held_bytes(records) == records[0].body.len() + held_bytes(records.drop_first()),
    decreases records.len(),
{
    if records.len() == 1 {
        assert(records.drop_last() =~= Seq::empty());
        assert(records.drop_first() =~= Seq::empty());
        assert(held_bytes(records.drop_last()) == 0);
    } else {
        lemma_held_bytes_drop_first(records.drop_last());
        assert(records.drop_last().drop_first() =~= records.drop_first().drop_last());
    }
}

proof fn lemma_held_bytes_push(records: Seq<RecordModel>, record: RecordModel)
    ensures
        held_bytes(records.push(record)) == held_bytes(records) + record.body.len(),
{
    assert(records.push(record).drop_last() =~= records);
}

proof fn lemma_no_match_before(records: Seq<RecordModel>, body: Seq<u8>, from: int, to: int)
    requires
        0 <= from <= to <= records.len(),
        forall|i: int| from <= i < to ==> (#[trigger] records[i]).body != body,
    ensures
        matching_record(records, body, from) == matching_record(records, body, to),
    decreases to - from,
{
    if from < to {
        lemma_no_match_before(records, body, from + 1, to);
    }
}

proof fn lemma_record_models_push(records: Seq<EvidenceRecord>, record: EvidenceRecord)
    ensures
        record_models(records.push(record)) == record_models(records).push(record@),
{
    assert(record_models(records.push(record)) =~= record_models(records).push(record@));
}

impl Bucket {
    /// The byte counters agree with the records, which stay within their budgets.
    pub closed spec fn well_formed(&self) -> bool {
        &&& self@.bounded()
        &&& self.head_bytes == held_bytes(self@.head)
        &&& self.tail_bytes == held_bytes(self@.tail)
    }

    /// A well-formed bucket stays within its budgets.
    pub proof fn lemma_bounded(&self)
        requires
            self.well_formed(),
        ensures
            self@.bounded(),
    {
    }

    /// An empty bucket; half of the budget goes to each end.
    pub fn new(class: EvidenceClass, budget: usize) -> (bucket: Self)
        ensures
            bucket@ == BucketModel::fresh(class, budget as nat),
            bucket.well_formed(),
    {
        let head_budget: usize = budget / 2;
        let bucket = Bucket {
            class,
            head: Vec::new(),
            tail: Vec::new(),
            head_bytes: 0,
            tail_bytes: 0,
            head_budget,
            tail_budget: budget - head_budget,
            total: 0,
            fingerprints: Vec::new(),
            first_omitted: None,
            last_omitted: None,
        };
        assert(bucket@.head =~= Seq::empty());
        assert(bucket@.tail =~= Seq::empty());
        bucket
    }

    /// How many lines of the class were seen.
    pub fn total(&self) -> (total: u64)
        ensures
            total == self@.total,
    {
        self.total
    }

    fn knows(&self, fingerprint: (u64, u64, usize)) -> (found: bool)
        ensures
            found == self@.fingerprints.contains(fingerprint),
    {
        let mut i: usize = 0;
        while i < self.fingerprints.len()
            invariant
                i <= self.fingerprints.len(),
                forall|j: int| 0 <= j < i ==> self.fingerprints@[j] != fingerprint,
            decreases self.fingerprints.len() - i,
        {
            let known = self.fingerprints[i];
            if known.0 == fingerprint.0 && known.1 == fingerprint.1 && known.2 == fingerprint.2 {
                assert(self.fingerprints@[i as int] == fingerprint);
                return true;
            }
            i += 1;
        }
        false
    }

    /// Find the retained record with this body.
    fn locate(&self, body: &[u8]) -> (index: Option<usize>)
        requires
            self.well_formed(),
        ensures
            index is None <==> matching_record(self@.records(), body@, 0) is None,
            index matches Some(i) ==> matching_record(self@.records(), body@, 0) == Some(i as int)
                && i < self@.records().len() && self@.records()[i as int].body == body@,
    {
        let ghost records = self@.records();
        let mut i: usize = 0;
        while i < self.head.len()
            invariant
                i <= self.head.len(),
                records == self@.records(),
                forall|j: int| 0 <= j < i ==> (#[trigger] records[j]).body != body@,
            decreases self.head.len() - i,
        {
            assert(records[i as int] == self.head@[i as int]@);
            if same_bytes(self.head[i].body.as_slice(), body) {
                proof {
                    lemma_no_match_before(records, body@, 0, i as int);
                }
                return Some(i);
            }
            i += 1;
        }
        let offset: usize = self.head.len();
        let mut j: usize = 0;
        while j < self.tail.len()
            invariant
                j <= self.tail.len() <= 64,
                offset == self.head.len() <= 64,
                records == self@.records(),
                forall|k: int| 0 <= k < offset + j ==> (#[trigger] records[k]).body != body@,
            decreases self.tail.len() - j,
        {
            assert(records[offset + j] == self.tail@[j as int]@);
            if same_bytes(self.tail[j].body.as_slice(), body) {
                proof {
                    lemma_no_match_before(records, body@, 0, offset + j);
                }
                return Some(offset + j);
            }
            j += 1;
        }
        proof {
            lemma_no_match_before(records, body@, 0, records.len() as int);
        }
        None
    }

    fn count_repeat(&mut self, index: usize, last_line: u64)
        requires
            old(self).well_formed(),
            index < old(self)@.records().len(),
        ensures
            final(self)@ == old(self)@.with_repeat(index as int, last_line),
            final(self).well_formed(),
    {
        let ghost before = self@;
        self.total = self.total.saturating_add(1);
        if index < self.head.len() {
            let repeats: u64 = self.head[index].repeats.saturating_add(1);
            self.head[index].repeats = repeats;
            self.head[index].span.last_line = last_line;
            proof {
                lemma_held_bytes_update(
                    before.head,
                    index as int,
                    seen_again(before.head[index as int], last_line),
                );
                assert(self@.head =~= before.with_repeat(index as int, last_line).head);
            }
        } else {
            let place: usize = index - self.head.len();
            let repeats: u64 = self.tail[place].repeats.saturating_add(1);
            self.tail[place].repeats = repeats;
            self.tail[place].span.last_line = last_line;
            proof {
                lemma_held_bytes_update(
                    before.tail,
                    place as int,
                    seen_again(before.tail[place as int], last_line),
                );
                assert(self@.tail =~= before.with_repeat(index as int, last_line).tail);
            }
        }
    }

    /// Count one more line if it repeats a retained record.
    pub fn observe_repeat(&mut self, body: &[u8], span: SourceSpan) -> (repeated: bool)
        requires
            old(self).well_formed(),
        ensures
            final(self).well_formed(),
            repeated == (old(self)@.repeated(body@) is Some),
            final(self)@ == match old(self)@.repeated(body@) {
                Some(index) => old(self)@.with_repeat(index, span.last_line),
                None => old(self)@,
            },
    {
        if !self.knows(record_fingerprint(body)) {
            return false;
        }
        match self.locate(body) {
            Some(index) => {
                self.count_repeat(index, span.last_line);
                true
            },
            None => false,
        }
    }

    fn note_omitted(&mut self, span: SourceSpan)
        ensures
            final(self)@ == old(self)@.without(span),
            old(self).well_formed() ==> final(self).well_formed(),
    {
        merge_omitted_range(&mut self.first_omitted, &mut self.last_omitted, span);
    }

    /// Take one more line.
    pub fn observe(&mut self, record: EvidenceRecord)
        requires
            old(self).well_formed(),
        ensures
            final(self)@ == old(self)@.observed(record.span, record.body@),
            final(self).well_formed(),
    {
        let ghost before = self@;
        let fingerprint = record_fingerprint(record.body.as_slice());
        if self.knows(fingerprint) {
            if let Some(index) = self.locate(record.body.as_slice()) {
                self.count_repeat(index, record.span.last_line);
                return ;
            }
        } else if self.fingerprints.len() < 128 {
            self.fingerprints.push(fingerprint);
        }
        self.total = self.total.saturating_add(1);
        self.insert(EvidenceRecord { span: record.span, body: record.body, repeats: 1 });
    }

    fn insert(&mut self, record: EvidenceRecord)
        requires
            old(self).well_formed(),
        ensures
            final(self)@ == old(self)@.with_record(record@),
            final(self).well_formed(),
    {
        let length: usize = record.body.len();
        if self.head.len() < 64 && length <= self.head_budget - self.head_bytes {
            proof {
                lemma_held_bytes_push(self@.head, record@);
                lemma_record_models_push(self.head@, record);
            }
            self.head_bytes = self.head_bytes + length;
            self.head.push(record);
            return ;
        }
        if length > self.tail_budget {
            self.note_omitted(record.span);
            return ;
        }
        let ghost entry = *self;
        while self.tail.len() > 0 && (self.tail.len() >= 64 || length > self.tail_budget
            - self.tail_bytes)
            invariant
                self.well_formed(),
                length <= self.tail_budget,
                self@.with_room(length as nat) == entry@.with_room(length as nat),
            decreases self.tail.len(),
        {
            let ghost earlier = self@;
            proof {
                lemma_held_bytes_drop_first(earlier.tail);
            }
            let removed = self.tail.remove(0);
            assert(record_models(self.tail@) =~= earlier.tail.drop_first());
            self.tail_bytes = self.tail_bytes - removed.body.len();
            self.note_omitted(removed.span);
        }
        proof {
            lemma_held_bytes_push(self@.tail, record@);
            lemma_record_models_push(self.tail@, record);
            assert(self.tail.len() == 0 ==> held_bytes(self@.tail) == 0);
        }
        self.tail_bytes = self.tail_bytes + length;
        self.tail.push(record);
    }
}

proof fn lemma_not_shown_len(records: Seq<RecordModel>, shown: Seq<u64>)
    ensures
        not_shown(records, shown).len() <= records.len(),
    decreases records.len(),
{
    if records.len() > 0 {
        lemma_not_shown_len(records.drop_last(), shown);
    }
}

proof fn lemma_section_counts(
    section: Section,
    candidates: Seq<RecordModel>,
    picked: Seq<bool>,
    count: nat,
    newline: Seq<u8>,
)
    ensures
        section.with_candidates(candidates, picked, count, newline).retained.len()
            <= section.retained.len() + count,
    decreases count,
{
    if count > 0 {
        lemma_section_counts(section, candidates, picked, (count - 1) as nat, newline);
    }
}

/// Keep the records whose first line is not yet shown elsewhere.
fn keep_unshown<'a>(ordered: &Vec<&'a EvidenceRecord>, shown: &[u64]) -> (candidates: Vec<
    &'a EvidenceRecord,
>)
    ensures
        borrowed_models(candidates@) == not_shown(borrowed_models(ordered@), shown@),
{
    let ghost records = borrowed_models(ordered@);
    let mut candidates: Vec<&'a EvidenceRecord> = Vec::new();
    assert(borrowed_models(candidates@) =~= not_shown(records.take(0), shown@));
    let mut i: usize = 0;
    while i < ordered.len()
        invariant
            i <= ordered.len(),
            records == borrowed_models(ordered@),
            borrowed_models(candidates@) == not_shown(records.take(i as int), shown@),
        decreases ordered.len() - i,
    {
        let record = ordered[i];
        proof {
            assert(records.take(i + 1).drop_last() =~= records.take(i as int));
            assert(records.take(i + 1).last() == record@);
        }
        if !line_is_shown(shown, record.span.first_line) {
            let ghost earlier = candidates@;
            candidates.push(record);
            assert(borrowed_models(candidates@) =~= borrowed_models(earlier).push(record@));
        }
        i += 1;
    }
    assert(records.take(records.len() as int) =~= records);
    candidates
}

fn append_records(output: &mut Vec<u8>, records: &Vec<&EvidenceRecord>, newline: &[u8])
    ensures
        final(output)@ == old(output)@ + record_texts(borrowed_models(records@), newline@),
{
    let ghost models = borrowed_models(records@);
    let ghost before = output@;
    let mut i: usize = 0;
    assert(output@ =~= before + record_texts(models.take(0), newline@));
    while i < records.len()
        invariant
            i <= records.len(),
            models == borrowed_models(records@),
            output@ == before + record_texts(models.take(i as int), newline@),
        decreases records.len() - i,
    {
        render_record(output, records[i], newline);
        proof {
            assert(models.take(i + 1).drop_last() =~= models.take(i as int));
            assert(models.take(i + 1).last() == records@[i as int]@);
            assert(output@ =~= before + record_texts(models.take(i + 1), newline@));
        }
        i += 1;
    }
    assert(models.take(models.len() as int) =~= models);
}

fn lines_of(records: &Vec<&EvidenceRecord>) -> (lines: Vec<u64>)
    ensures
        lines@ == first_lines(borrowed_models(records@)),
{
    let mut lines: Vec<u64> = Vec::new();
    let mut i: usize = 0;
    while i < records.len()
        invariant
            i <= records.len(),
            lines@.len() == i,
            forall|j: int| 0 <= j < i ==> lines@[j] == records@[j].span.first_line,
        decreases records.len() - i,
    {
        lines.push(records[i].span.first_line);
        i += 1;
    }
    assert(lines@ =~= first_lines(borrowed_models(records@)));
    lines
}

/// Pick candidate `index` if it leaves room for the omission note.
fn try_candidate(
    picked: &mut Vec<bool>,
    bytes: usize,
    candidates: &Vec<&EvidenceRecord>,
    index: usize,
    newline: &[u8],
    limit: usize,
) -> (taken: usize)
    requires
        old(picked)@.len() == candidates@.len(),
        index < candidates@.len(),
    ensures
        (Picks { picked: final(picked)@, bytes: taken as nat }) == (Picks {
            picked: old(picked)@,
            bytes: bytes as nat,
        }).tried(borrowed_models(candidates@), index as int, newline@, limit as nat),
        final(picked)@.len() == old(picked)@.len(),
{
    let mut rendered: Vec<u8> = Vec::new();
    render_record(&mut rendered, candidates[index], newline);
    assert(rendered@ =~= record_text(borrowed_models(candidates@)[index as int], newline@));
    let taken: usize = bytes.saturating_add(rendered.len());
    if taken.saturating_add(128) <= limit {
        picked.set(index, true);
        taken
    } else {
        bytes
    }
}

/// Pick the candidates that fit, from both ends towards the middle.
fn pick_inwards(
    candidates: &Vec<&EvidenceRecord>,
    heading_bytes: usize,
    newline: &[u8],
    limit: usize,
) -> (picked: Vec<bool>)
    ensures
        picked@ == (Picks {
            picked: Seq::new(candidates@.len(), |i: int| false),
            bytes: heading_bytes as nat,
        }).tried_inwards(
            borrowed_models(candidates@),
            0,
            candidates@.len() as int,
            newline@,
            limit as nat,
        ).picked,
        picked@.len() == candidates@.len(),
{
    let ghost models = borrowed_models(candidates@);
    let mut picked: Vec<bool> = Vec::new();
    let mut i: usize = 0;
    while i < candidates.len()
        invariant
            i <= candidates.len(),
            picked@ =~= Seq::new(i as nat, |j: int| false),
        decreases candidates.len() - i,
    {
        picked.push(false);
        i += 1;
    }
    let ghost all = (Picks {
        picked: Seq::new(candidates@.len(), |j: int| false),
        bytes: heading_bytes as nat,
    }).tried_inwards(models, 0, models.len() as int, newline@, limit as nat);
    let mut bytes: usize = heading_bytes;
    let mut first: usize = 0;
    let mut last: usize = candidates.len();
    assert(picked@ =~= Seq::new(candidates@.len(), |j: int| false));
    while first < last
        invariant
            first <= last <= candidates.len(),
            models == borrowed_models(candidates@),
            picked@.len() == candidates@.len(),
            (Picks { picked: picked@, bytes: bytes as nat }).tried_inwards(
                models,
                first as int,
                last as int,
                newline@,
                limit as nat,
            ) == all,
        decreases last - first,
    {
        bytes = try_candidate(&mut picked, bytes, candidates, first, newline, limit);
        first += 1;
        if first < last {
            last -= 1;
            bytes = try_candidate(&mut picked, bytes, candidates, last, newline, limit);
        }
    }
    picked
}

impl Bucket {
    /// Render the section within `limit` bytes.
    pub fn render_ranked(&self, limit: usize, newline: &[u8], represented: &[u64]) -> (rendered:
        RenderedBucket)
        requires
            self.well_formed(),
        ensures
            rendered@ == self@.rendered(limit as nat, newline@, represented@),
            rendered.body@.len() <= limit,
    {
        proof {
            reveal(BucketModel::rendered);
        }
        if self.total == 0 {
            return RenderedBucket { body: Vec::new(), retained_lines: Vec::new() };
        }
        let ghost model = self@;
        let ghost all = model.records();
        let mut ordered: Vec<&EvidenceRecord> = Vec::new();
        let mut i: usize = 0;
        assert(borrowed_models(ordered@) =~= by_line(all.take(0)));
        while i < self.head.len()
            invariant
                i <= self.head.len(),
                model == self@,
                all == model.records(),
                ordered@.len() == i,
                borrowed_models(ordered@) == by_line(all.take(i as int)),
            decreases self.head.len() - i,
        {
            let ghost earlier = borrowed_models(ordered@);
            place(&mut ordered, &self.head[i]);
            proof {
                lemma_by_line_orders(all.take(i + 1));
                assert(all.take(i + 1).drop_last() =~= all.take(i as int));
                assert(all.take(i + 1).last() == self.head@[i as int]@);
                assert(borrowed_models(ordered@).len() == ordered@.len());
            }
            i += 1;
        }
        let mut j: usize = 0;
        while j < self.tail.len()
            invariant
                j <= self.tail.len(),
                self.head.len() + self.tail.len() <= 128,
                model == self@,
                all == model.records(),
                ordered@.len() == self.head.len() + j,
                borrowed_models(ordered@) == by_line(all.take(self.head.len() + j)),
            decreases self.tail.len() - j,
        {
            place(&mut ordered, &self.tail[j]);
            proof {
                let count = self.head.len() + j;
                lemma_by_line_orders(all.take(count + 1));
                assert(all.take(count + 1).drop_last() =~= all.take(count));
                assert(all.take(count + 1).last() == self.tail@[j as int]@);
                assert(borrowed_models(ordered@).len() == ordered@.len());
            }
            j += 1;
        }
        assert(all.take(all.len() as int) =~= all);
        let ghost records = by_line(all);
        let candidates = keep_unshown(&ordered, represented);
        let ghost models = borrowed_models(candidates@);
        proof {
            lemma_not_shown_len(records, represented@);
            assert(borrowed_models(ordered@).len() == ordered@.len());
            assert(models.len() == candidates@.len());
        }
        let mut complete: Vec<u8> = Vec::new();
        append_section_heading(&mut complete, self.class, newline);
        assert(complete@ =~= section_heading(self.class, newline@));
        append_records(&mut complete, &candidates, newline);
        append_omission(
            &mut complete,
            self.class,
            self.total.saturating_sub(ordered.len() as u64),
            self.first_omitted,
            self.last_omitted,
            newline,
        );
        assert(complete@ == model.complete_section(newline@, represented@));
        if complete.len() <= limit {
            return RenderedBucket { body: complete, retained_lines: lines_of(&candidates) };
        }
        self.render_picked(limit, newline, &candidates, ordered.len() - candidates.len())
    }

    fn render_picked(
        &self,
        limit: usize,
        newline: &[u8],
        candidates: &Vec<&EvidenceRecord>,
        hidden: usize,
    ) -> (rendered: RenderedBucket)
        requires
            self.well_formed(),
            candidates@.len() + hidden <= 128,
        ensures
            rendered@ == self@.shortened(
                limit as nat,
                newline@,
                borrowed_models(candidates@),
                hidden as nat,
            ),
            rendered.body@.len() <= limit,
    {
        let title: &[u8] = self.class.title().as_bytes();
        proof {
            lemma_title_len(self.class);
        }
        let heading_bytes: usize = (title.len() + 7).saturating_add(newline.len());
        if limit < heading_bytes.saturating_add(128) {
            return RenderedBucket { body: Vec::new(), retained_lines: Vec::new() };
        }
        let ghost models = borrowed_models(candidates@);
        let picked = pick_inwards(candidates, heading_bytes, newline, limit);
        let mut body: Vec<u8> = Vec::new();
        append_section_heading(&mut body, self.class, newline);
        assert(body@ =~= section_heading(self.class, newline@));
        let mut retained_lines: Vec<u64> = Vec::new();
        let mut first_omitted: Option<u64> = self.first_omitted;
        let mut last_omitted: Option<u64> = self.last_omitted;
        let ghost start = Section {
            body: section_heading(self.class, newline@),
            retained: Seq::empty(),
            first_omitted: self.first_omitted,
            last_omitted: self.last_omitted,
        };
        let mut i: usize = 0;
        while i < candidates.len()
            invariant
                i <= candidates.len(),
                models == borrowed_models(candidates@),
                picked@.len() == candidates@.len(),
                (Section {
                    body: body@,
                    retained: retained_lines@,
                    first_omitted,
                    last_omitted,
                }) == start.with_candidates(models, picked@, i as nat, newline@),
            decreases candidates.len() - i,
        {
            let record = candidates[i];
            assert(models[i as int] == record@);
            if picked[i] {
                render_record(&mut body, record, newline);
                retained_lines.push(record.span.first_line);
            } else {
                merge_omitted_range(&mut first_omitted, &mut last_omitted, record.span);
            }
            i += 1;
        }
        proof {
            lemma_section_counts(start, models, picked@, models.len(), newline@);
        }
        let shown: usize = hidden + retained_lines.len();
        append_omission(
            &mut body,
            self.class,
            self.total.saturating_sub(shown as u64),
            first_omitted,
            last_omitted,
            newline,
        );
        let ghost whole = body@;
        body.truncate(limit);
        assert(body@ =~= first_bytes(whole, limit as nat));
        RenderedBucket { body, retained_lines }
    }
}

} // verus!
