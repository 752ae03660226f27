//! The index of a compiled pack: its rule records and its programs.
use vstd::prelude::*;
use vstd::utf8::{encode_utf8, valid_utf8};

use crate::bytes::{append, lemma_occurs_in_parts, occurs_at};
use crate::numbers::{append_le, capacity, le_bytes, le_value, lemma_capacities, lemma_le_round_trip, lemma_values_in_range, lemma_widths, read_le};
use crate::text::decode;

verus! {

/// Where the record of a rule stands in a compiled pack.
#[derive(Clone, Debug)]
pub struct RuleRecord {
    pub id: String,
    pub offset: u64,
    pub length: u32,
    pub digest: [u8; 32],
}

/// The contents of a [`RuleRecord`].
#[verifier::ext_equal]
pub struct RuleRecordModel {
    pub id: Seq<char>,
    pub offset: u64,
    pub length: u32,
    pub digest: Seq<u8>,
}

impl View for RuleRecord {
    type V = RuleRecordModel;

    open spec fn view(&self) -> RuleRecordModel {
        RuleRecordModel {
            id: self.id@,
            offset: self.offset,
            length: self.length,
            digest: self.digest@,
        }
    }
}

/// The rules that may cover a program.
#[derive(Clone, Debug)]
pub struct ProgramEntry {
    pub program: String,
    pub candidates: Vec<u32>,
}

/// The contents of a [`ProgramEntry`].
#[verifier::ext_equal]
pub struct ProgramModel {
    pub program: Seq<char>,
    pub candidates: Seq<u32>,
}

impl View for ProgramEntry {
    type V = ProgramModel;

    open spec fn view(&self) -> ProgramModel {
        ProgramModel { program: self.program@, candidates: self.candidates@ }
    }
}

/// The contents of some records.
pub open spec fn record_models(rules: Seq<RuleRecord>) -> Seq<RuleRecordModel> {
    rules.map_values(|rule: RuleRecord| rule@)
}

/// The contents of some programs.
pub open spec fn program_models(programs: Seq<ProgramEntry>) -> Seq<ProgramModel> {
    programs.map_values(|entry: ProgramEntry| entry@)
}

/// A text with its length in front.
pub open spec fn string_bytes(text: Seq<char>) -> Seq<u8> {
    le_bytes(encode_utf8(text).len(), 2) + encode_utf8(text)
}

/// The encoding of a record.
pub open spec fn record_bytes(rule: RuleRecordModel) -> Seq<u8> {
    string_bytes(rule.id) + le_bytes(rule.offset as nat, 8) + le_bytes(rule.length as nat, 4)
        + rule.digest
}

/// The encoding of some records.
pub open spec fn records_bytes(rules: Seq<RuleRecordModel>) -> Seq<u8>
    decreases rules.len(),
{
    if rules.len() == 0 {
        Seq::empty()
    } else {
        records_bytes(rules.drop_last()) + record_bytes(rules.last())
    }
}

/// The encoding of some rule numbers.
pub open spec fn candidates_bytes(candidates: Seq<u32>) -> Seq<u8>
    decreases candidates.len(),
{
    if candidates.len() == 0 {
        Seq::empty()
    } else {
        candidates_bytes(candidates.drop_last()) + le_bytes(candidates.last() as nat, 4)
    }
}

/// The encoding of a program.
pub open spec fn program_bytes(entry: ProgramModel) -> Seq<u8> {
    string_bytes(entry.program) + le_bytes(entry.candidates.len(), 4) + candidates_bytes(
        entry.candidates,
    )
}

/// The encoding of some programs.
pub open spec fn programs_bytes(programs: Seq<ProgramModel>) -> Seq<u8>
    decreases programs.len(),
{
    if programs.len() == 0 {
        Seq::empty()
    } else {
        programs_bytes(programs.drop_last()) + program_bytes(programs.last())
    }
}

/// The encoding of an index.
pub open spec fn index_bytes(
    rules: Seq<RuleRecordModel>,
    programs: Seq<ProgramModel>,
) -> Seq<u8> {
    le_bytes(rules.len(), 4) + records_bytes(rules) + le_bytes(programs.len(), 4) + programs_bytes(
        programs,
    )
}

/// A text whose length fits its field.
pub open spec fn fits_string(text: Seq<char>) -> bool {
    encode_utf8(text).len() <= 0xffff
}

/// Why the first `count` programs cannot be encoded.
pub open spec fn programs_fault(programs: Seq<ProgramModel>, count: nat) -> Option<Seq<char>>
    decreases count,
{
    if count == 0 {
        None
    } else {
        match programs_fault(programs, (count - 1) as nat) {
            Some(fault) => Some(fault),
            None => if !fits_string(programs[count - 1].program) {
                Some("index string is too long"@)
            } else if programs[count - 1].candidates.len() > u32::MAX {
                Some("index count does not fit u32"@)
            } else {
                None
            },
        }
    }
}

/// Why an index cannot be encoded.
pub open spec fn index_fault(
    rules: Seq<RuleRecordModel>,
    programs: Seq<ProgramModel>,
) -> Option<Seq<char>> {
    if rules.len() > u32::MAX {
        Some("index count does not fit u32"@)
    } else if exists|i: int| 0 <= i < rules.len() && !fits_string((#[trigger] rules[i]).id) {
        Some("index string is too long"@)
    } else if programs.len() > u32::MAX {
        Some("index count does not fit u32"@)
    } else {
        programs_fault(programs, programs.len())
    }
}

proof fn lemma_programs_fault_stays(programs: Seq<ProgramModel>, count: nat, total: nat)
    requires
        count <= total,
        programs_fault(programs, count) is Some,
    ensures
        programs_fault(programs, total) == programs_fault(programs, count),
    decreases total,
{
    if count < total {
        lemma_programs_fault_stays(programs, count, (total - 1) as nat);
    }
}

fn write_string(output: &mut Vec<u8>, value: &str) -> (result: Result<(), String>)
    ensures
        result is Ok <==> fits_string(value@),
        result is Ok ==> final(output)@ == old(output)@ + string_bytes(value@),
        result matches Err(error) ==> error@ == "index string is too long"@,
{
    let bytes: &[u8] = value.as_bytes();
    if bytes.len() > 0xffff {
        return Err("index string is too long".to_owned());
    }
    let mut text: Vec<u8> = Vec::new();
    append_le(&mut text, bytes.len() as u64, 2);
    assert(text@ =~= le_bytes(bytes@.len(), 2));
    append(&mut text, bytes);
    append(output, text.as_slice());
    Ok(())
}

fn write_record(output: &mut Vec<u8>, rule: &RuleRecord) -> (result: Result<(), String>)
    ensures
        result is Ok <==> fits_string(rule.id@),
        result is Ok ==> final(output)@ == old(output)@ + record_bytes(rule@),
        result matches Err(error) ==> error@ == "index string is too long"@,
{
    let mut record: Vec<u8> = Vec::new();
    write_string(&mut record, rule.id.as_str())?;
    assert(record@ =~= string_bytes(rule.id@));
    append_le(&mut record, rule.offset, 8);
    append_le(&mut record, rule.length as u64, 4);
    append(&mut record, rule.digest.as_slice());
    append(output, record.as_slice());
    Ok(())
}

fn write_program(output: &mut Vec<u8>, entry: &ProgramEntry) -> (result: Result<(), String>)
    ensures
        match programs_fault(seq![entry@], 1) {
            None => result is Ok && final(output)@ == old(output)@ + program_bytes(entry@),
            Some(fault) => result matches Err(error) && error@ == fault,
        },
{
    proof {
        reveal_with_fuel(programs_fault, 2);
        assert(programs_fault(seq![entry@], 0) is None);
    }
    let mut record: Vec<u8> = Vec::new();
    write_string(&mut record, entry.program.as_str())?;
    assert(record@ =~= string_bytes(entry.program@));
    if entry.candidates.len() > 0xffff_ffff {
        return Err("index count does not fit u32".to_owned());
    }
    append_le(&mut record, entry.candidates.len() as u64, 4);
    let ghost heading = record@;
    let mut i: usize = 0;
    assert(record@ =~= heading + candidates_bytes(entry.candidates@.take(0)));
    while i < entry.candidates.len()
        invariant
            i <= entry.candidates.len(),
            record@ == heading + candidates_bytes(entry.candidates@.take(i as int)),
        decreases entry.candidates.len() - i,
    {
        append_le(&mut record, entry.candidates[i] as u64, 4);
        proof {
            assert(entry.candidates@.take(i + 1).drop_last() =~= entry.candidates@.take(i as int));
            assert(record@ =~= heading + candidates_bytes(entry.candidates@.take(i + 1)));
        }
        i += 1;
    }
    assert(entry.candidates@.take(entry.candidates@.len() as int) =~= entry.candidates@);
    append(output, record.as_slice());
    Ok(())
}

/// Encode the index of a compiled pack.
///
/// # Errors
///
/// Returns an error when a text or a count does not fit its field.
pub fn encode_index(rules: &Vec<RuleRecord>, programs: &Vec<ProgramEntry>) -> (result: Result<
    Vec<u8>,
    String,
>)
    ensures
        match index_fault(record_models(rules@), program_models(programs@)) {
            None => result matches Ok(bytes) && bytes@ == index_bytes(
                record_models(rules@),
                program_models(programs@),
            ),
            Some(fault) => result matches Err(error) && error@ == fault,
        },
{
    let ghost records = record_models(rules@);
    let ghost entries = program_models(programs@);
    if rules.len() > 0xffff_ffff {
        return Err("index count does not fit u32".to_owned());
    }
    let mut output: Vec<u8> = Vec::new();
    append_le(&mut output, rules.len() as u64, 4);
    let ghost heading = output@;
    assert(heading =~= le_bytes(records.len(), 4));
    let mut i: usize = 0;
    assert(output@ =~= heading + records_bytes(records.take(0)));
    while i < rules.len()
        invariant
            i <= rules.len() <= 0xffff_ffff,
            records == record_models(rules@),
            output@ == heading + records_bytes(records.take(i as int)),
            forall|j: int| 0 <= j < i ==> fits_string((#[trigger] records[j]).id),
        decreases rules.len() - i,
    {
        assert(records[i as int] == rules@[i as int]@);
        write_record(&mut output, &rules[i])?;
        proof {
            assert(records.take(i + 1).drop_last() =~= records.take(i as int));
            assert(output@ =~= heading + records_bytes(records.take(i + 1)));
        }
        i += 1;
    }
    assert(records.take(records.len() as int) =~= records);
    if programs.len() > 0xffff_ffff {
        return Err("index count does not fit u32".to_owned());
    }
    append_le(&mut output, programs.len() as u64, 4);
    let ghost body = output@;
    assert(body == heading + records_bytes(records) + le_bytes(entries.len(), 4));
    let mut j: usize = 0;
    assert(output@ =~= body + programs_bytes(entries.take(0)));
    while j < programs.len()
        invariant
            j <= programs.len(),
            entries == program_models(programs@),
            output@ == body + programs_bytes(entries.take(j as int)),
            programs_fault(entries, j as nat) is None,
            index_fault(records, entries) == programs_fault(entries, entries.len()),
            records == record_models(rules@),
        decreases programs.len() - j,
    {
        proof {
            assert(entries[j as int] == programs@[j as int]@);
            reveal_with_fuel(programs_fault, 2);
            assert(programs_fault(seq![entries[j as int]], 1) == programs_fault(
                entries,
                j as nat + 1,
            ));
        }
        if let Err(error) = write_program(&mut output, &programs[j]) {
            proof {
                lemma_programs_fault_stays(entries, j as nat + 1, entries.len());
            }
            return Err(error);
        }
        proof {
            assert(entries.take(j + 1).drop_last() =~= entries.take(j as int));
            assert(output@ =~= body + programs_bytes(entries.take(j + 1)));
        }
        j += 1;
    }
    assert(entries.take(entries.len() as int) =~= entries);
    Ok(output)
}

/// The `length` bytes from `at` on, and the position after them.
pub open spec fn taken(bytes: Seq<u8>, at: int, length: nat) -> Result<(Seq<u8>, int), Seq<char>> {
    if at + length > usize::MAX {
        Err("compiled index offset overflowed"@)
    } else if at + length > bytes.len() {
        Err("compiled index is truncated"@)
    } else {
        Ok((bytes.subrange(at, at + length), at + length))
    }
}

/// The number of `width` bytes from `at` on, and the position after it.
pub open spec fn number_at(bytes: Seq<u8>, at: int, width: nat) -> Result<(nat, int), Seq<char>> {
    match taken(bytes, at, width) {
        Err(fault) => Err(fault),
        Ok((value, next)) => Ok((le_value(value), next)),
    }
}

/// The text from `at` on, and the position after it.
pub open spec fn string_at(bytes: Seq<u8>, at: int) -> Result<(Seq<char>, int), Seq<char>> {
    match number_at(bytes, at, 2) {
        Err(fault) => Err(fault),
        Ok((length, start)) => match taken(bytes, start, length) {
            Err(fault) => Err(fault),
            Ok((text, next)) => if valid_utf8(text) {
                Ok((vstd::utf8::decode_utf8(text), next))
            } else {
                Err("compiled string is not UTF-8"@)
            },
        },
    }
}

/// The record from `at` on, and the position after it.
pub open spec fn record_at(bytes: Seq<u8>, at: int) -> Result<(RuleRecordModel, int), Seq<char>> {
    match string_at(bytes, at) {
        Err(fault) => Err(fault),
        Ok((id, after_id)) => match number_at(bytes, after_id, 8) {
            Err(fault) => Err(fault),
            Ok((offset, after_offset)) => match number_at(bytes, after_offset, 4) {
                Err(fault) => Err(fault),
                Ok((length, after_length)) => match taken(bytes, after_length, 32) {
                    Err(fault) => Err(fault),
                    Ok((digest, next)) => Ok(
                        (
                            RuleRecordModel {
                                id,
                                offset: offset as u64,
                                length: length as u32,
                                digest,
                            },
                            next,
                        ),
                    ),
                },
            },
        },
    }
}

/// The next `count` records from `at` on, and the position after them.
pub open spec fn records_at(bytes: Seq<u8>, at: int, count: nat) -> Result<
    (Seq<RuleRecordModel>, int),
    Seq<char>,
>
    decreases count,
{
    if count == 0 {
        Ok((Seq::empty(), at))
    } else {
        match records_at(bytes, at, (count - 1) as nat) {
            Err(fault) => Err(fault),
            Ok((rules, middle)) => match record_at(bytes, middle) {
                Err(fault) => Err(fault),
                Ok((rule, next)) => Ok((rules.push(rule), next)),
            },
        }
    }
}

/// The next `count` rule numbers from `at` on, and the position after them.
pub open spec fn candidates_at(bytes: Seq<u8>, at: int, count: nat) -> Result<
    (Seq<u32>, int),
    Seq<char>,
>
    decreases count,
{
    if count == 0 {
        Ok((Seq::empty(), at))
    } else {
        match candidates_at(bytes, at, (count - 1) as nat) {
            Err(fault) => Err(fault),
            Ok((candidates, middle)) => match number_at(bytes, middle, 4) {
                Err(fault) => Err(fault),
                Ok((candidate, next)) => Ok((candidates.push(candidate as u32), next)),
            },
        }
    }
}

/// The program from `at` on, and the position after it.
pub open spec fn program_at(bytes: Seq<u8>, at: int, rule_count: nat) -> Result<
    (ProgramModel, int),
    Seq<char>,
> {
    match string_at(bytes, at) {
        Err(fault) => Err(fault),
        Ok((program, after_program)) => match number_at(bytes, after_program, 4) {
            Err(fault) => Err(fault),
            Ok((count, after_count)) => if count == 0 || count > rule_count {
                Err("invalid program candidate count"@)
            } else {
                match candidates_at(bytes, after_count, count) {
                    Err(fault) => Err(fault),
                    Ok((candidates, next)) => Ok((ProgramModel { program, candidates }, next)),
                }
            },
        },
    }
}

/// The next `count` programs from `at` on, and the position after them.
pub open spec fn programs_at(bytes: Seq<u8>, at: int, count: nat, rule_count: nat) -> Result<
    (Seq<ProgramModel>, int),
    Seq<char>,
>
    decreases count,
{
    if count == 0 {
        Ok((Seq::empty(), at))
    } else {
        match programs_at(bytes, at, (count - 1) as nat, rule_count) {
            Err(fault) => Err(fault),
            Ok((programs, middle)) => match program_at(bytes, middle, rule_count) {
                Err(fault) => Err(fault),
                Ok((entry, next)) => Ok((programs.push(entry), next)),
            },
        }
    }
}

/// The index that some bytes write.
pub open spec fn decoded_index(bytes: Seq<u8>, rule_count: nat, program_count: nat) -> Result<
    (Seq<RuleRecordModel>, Seq<ProgramModel>),
    Seq<char>,
> {
    match number_at(bytes, 0, 4) {
        Err(fault) => Err(fault),
        Ok((rules_written, rules_start)) => if rules_written != rule_count {
            Err("compiled rule count disagrees with index"@)
        } else {
            match records_at(bytes, rules_start, rule_count) {
                Err(fault) => Err(fault),
                Ok((rules, after_rules)) => match number_at(bytes, after_rules, 4) {
                    Err(fault) => Err(fault),
                    Ok((programs_written, programs_start)) => if programs_written
                        != program_count {
                        Err("compiled program count disagrees with index"@)
                    } else {
                        match programs_at(bytes, programs_start, program_count, rule_count) {
                            Err(fault) => Err(fault),
                            Ok((programs, end)) => if end != bytes.len() {
                                Err("compiled index has trailing bytes"@)
                            } else {
                                Ok((rules, programs))
                            },
                        }
                    },
                },
            }
        },
    }
}

struct SliceCursor<'a> {
    body: &'a [u8],
    offset: usize,
}

impl<'a> SliceCursor<'a> {
    fn read_exact(&mut self, length: usize) -> (result: Result<&'a [u8], String>)
        ensures
            final(self).body@ == old(self).body@,
            match taken(old(self).body@, old(self).offset as int, length as nat) {
                Ok((value, next)) => result matches Ok(bytes) && bytes@ == value
                    && final(self).offset == next,
                Err(fault) => result matches Err(error) && error@ == fault,
            },
    {
        let Some(end) = self.offset.checked_add(length) else {
            return Err("compiled index offset overflowed".to_owned());
        };
        if end > self.body.len() {
            return Err("compiled index is truncated".to_owned());
        }
        let body: &'a [u8] = self.body;
        let value: &'a [u8] = &body[self.offset..end];
        self.offset = end;
        Ok(value)
    }

    fn read_number(&mut self, width: usize) -> (result: Result<u64, String>)
        requires
            width <= 8,
        ensures
            final(self).body@ == old(self).body@,
            match number_at(old(self).body@, old(self).offset as int, width as nat) {
                Ok((value, next)) => result matches Ok(number) && number == value
                    && final(self).offset == next && value < capacity(width as nat),
                Err(fault) => result matches Err(error) && error@ == fault,
            },
    {
        let bytes = self.read_exact(width)?;
        proof {
            lemma_values_in_range(bytes@);
        }
        Ok(read_le(bytes))
    }

    fn read_digest(&mut self) -> (result: Result<[u8; 32], String>)
        ensures
            final(self).body@ == old(self).body@,
            match taken(old(self).body@, old(self).offset as int, 32) {
                Ok((value, next)) => result matches Ok(digest) && digest@ == value
                    && final(self).offset == next,
                Err(fault) => result matches Err(error) && error@ == fault,
            },
    {
        let bytes = self.read_exact(32)?;
        let mut digest: [u8; 32] = [0u8; 32];
        let mut i: usize = 0;
        while i < 32
            invariant
                i <= 32,
                bytes@.len() == 32,
                forall|j: int| 0 <= j < i ==> digest@[j] == bytes@[j],
            decreases 32 - i,
        {
            digest[i] = bytes[i];
            i += 1;
        }
        assert(digest@ =~= bytes@);
        Ok(digest)
    }

    fn read_string(&mut self) -> (result: Result<String, String>)
        ensures
            final(self).body@ == old(self).body@,
            match string_at(old(self).body@, old(self).offset as int) {
                Ok((value, next)) => result matches Ok(text) && text@ == value
                    && final(self).offset == next,
                Err(fault) => result matches Err(error) && error@ == fault,
            },
    {
        proof {
            lemma_capacities();
        }
        let length: u64 = self.read_number(2)?;
        let bytes = self.read_exact(length as usize)?;
        match decode(bytes) {
            Some(text) => {
                proof {
                    vstd::utf8::encode_utf8_decode_utf8(text@);
                }
                Ok(text)
            },
            None => Err("compiled string is not UTF-8".to_owned()),
        }
    }

    fn read_record(&mut self) -> (result: Result<RuleRecord, String>)
        ensures
            final(self).body@ == old(self).body@,
            match record_at(old(self).body@, old(self).offset as int) {
                Ok((value, next)) => result matches Ok(rule) && rule@ == value
                    && final(self).offset == next,
                Err(fault) => result matches Err(error) && error@ == fault,
            },
    {
        proof {
            lemma_capacities();
        }
        let id: String = self.read_string()?;
        let offset: u64 = self.read_number(8)?;
        let length: u64 = self.read_number(4)?;
        let digest: [u8; 32] = self.read_digest()?;
        Ok(RuleRecord { id, offset, length: length as u32, digest })
    }

    #[verifier::loop_isolation(false)]
    fn read_candidates(&mut self, count: u64) -> (result: Result<Vec<u32>, String>)
        ensures
            final(self).body@ == old(self).body@,
            match candidates_at(old(self).body@, old(self).offset as int, count as nat) {
                Ok((value, next)) => result matches Ok(candidates) && candidates@ == value
                    && final(self).offset == next,
                Err(fault) => result matches Err(error) && error@ == fault,
            },
    {
        proof {
            lemma_capacities();
        }
        let ghost body = self.body@;
        let ghost start = self.offset as int;
        let mut candidates: Vec<u32> = Vec::new();
        let mut i: u64 = 0;
        assert(candidates@ =~= Seq::<u32>::empty());
        while i < count
            invariant
                i <= count,
                self.body@ == body,
                candidates_at(body, start, i as nat) == Ok::<(Seq<u32>, int), Seq<char>>(
                    (candidates@, self.offset as int),
                ),
            decreases count - i,
        {
            match self.read_number(4) {
                Ok(candidate) => {
                    candidates.push(candidate as u32);
                },
                Err(error) => {
                    proof {
                        lemma_candidates_fault_stays(body, start, i as nat + 1, count as nat);
                    }
                    return Err(error);
                },
            }
            i += 1;
        }
        Ok(candidates)
    }

    fn read_program(&mut self, rule_count: usize) -> (result: Result<ProgramEntry, String>)
        ensures
            final(self).body@ == old(self).body@,
            match program_at(old(self).body@, old(self).offset as int, rule_count as nat) {
                Ok((value, next)) => result matches Ok(entry) && entry@ == value
                    && final(self).offset == next,
                Err(fault) => result matches Err(error) && error@ == fault,
            },
    {
        proof {
            lemma_capacities();
        }
        let program: String = self.read_string()?;
        let count: u64 = self.read_number(4)?;
        if count == 0 || count > rule_count as u64 {
            return Err("invalid program candidate count".to_owned());
        }
        let candidates: Vec<u32> = self.read_candidates(count)?;
        Ok(ProgramEntry { program, candidates })
    }
}

proof fn lemma_candidates_fault_stays(bytes: Seq<u8>, at: int, count: nat, total: nat)
    requires
        count <= total,
        candidates_at(bytes, at, count) is Err,
    ensures
        candidates_at(bytes, at, total) == candidates_at(bytes, at, count),
    decreases total,
{
    if count < total {
        lemma_candidates_fault_stays(bytes, at, count, (total - 1) as nat);
    }
}

proof fn lemma_records_fault_stays(bytes: Seq<u8>, at: int, count: nat, total: nat)
    requires
        count <= total,
        records_at(bytes, at, count) is Err,
    ensures
        records_at(bytes, at, total) == records_at(bytes, at, count),
    decreases total,
{
    if count < total {
        lemma_records_fault_stays(bytes, at, count, (total - 1) as nat);
    }
}

proof fn lemma_programs_at_fault_stays(
    bytes: Seq<u8>,
    at: int,
    count: nat,
    total: nat,
    rule_count: nat,
)
    requires
        count <= total,
        programs_at(bytes, at, count, rule_count) is Err,
    ensures
        programs_at(bytes, at, total, rule_count) == programs_at(bytes, at, count, rule_count),
    decreases total,
{
    if count < total {
        lemma_programs_at_fault_stays(bytes, at, count, (total - 1) as nat, rule_count);
    }
}

/// Decode the index of a compiled pack.
///
/// # Errors
///
/// Returns an error when the bytes end early, hold more than the index, hold a text that is not
/// UTF-8, or disagree with the expected counts.
pub fn decode_index(bytes: &[u8], rule_count: usize, program_count: usize) -> (result: Result<
    (Vec<RuleRecord>, Vec<ProgramEntry>),
    String,
>)
    ensures
        match decoded_index(bytes@, rule_count as nat, program_count as nat) {
            Ok((rules, programs)) => result matches Ok((found_rules, found_programs))
                && record_models(found_rules@) == rules && program_models(found_programs@)
                == programs,
            Err(fault) => result matches Err(error) && error@ == fault,
        },
{
    proof {
        lemma_capacities();
    }
    let mut cursor = SliceCursor { body: bytes, offset: 0 };
    if cursor.read_number(4)? != rule_count as u64 {
        return Err("compiled rule count disagrees with index".to_owned());
    }
    let mut rules: Vec<RuleRecord> = Vec::new();
    let ghost rules_start = cursor.offset as int;
    let mut i: usize = 0;
    assert(record_models(rules@) =~= Seq::<RuleRecordModel>::empty());
    while i < rule_count
        invariant
            i <= rule_count,
            cursor.body@ == bytes@,
            records_at(bytes@, rules_start, i as nat) == Ok::<
                (Seq<RuleRecordModel>, int),
                Seq<char>,
            >((record_models(rules@), cursor.offset as int)),
            number_at(bytes@, 0, 4) == Ok::<(nat, int), Seq<char>>(
                (rule_count as nat, rules_start),
            ),
        decreases rule_count - i,
    {
        let ghost before = rules@;
        match cursor.read_record() {
            Ok(rule) => {
                rules.push(rule);
                assert(record_models(rules@) =~= record_models(before).push(rule@));
            },
            Err(error) => {
                proof {
                    lemma_records_fault_stays(
                        bytes@,
                        rules_start,
                        i as nat + 1,
                        rule_count as nat,
                    );
                }
                return Err(error);
            },
        }
        i += 1;
    }
    let ghost rules_end = cursor.offset as int;
    if cursor.read_number(4)? != program_count as u64 {
        return Err("compiled program count disagrees with index".to_owned());
    }
    let mut programs: Vec<ProgramEntry> = Vec::new();
    let ghost programs_start = cursor.offset as int;
    let mut j: usize = 0;
    assert(program_models(programs@) =~= Seq::<ProgramModel>::empty());
    while j < program_count
        invariant
            j <= program_count,
            cursor.body@ == bytes@,
            programs_at(bytes@, programs_start, j as nat, rule_count as nat) == Ok::<
                (Seq<ProgramModel>, int),
                Seq<char>,
            >((program_models(programs@), cursor.offset as int)),
            number_at(bytes@, 0, 4) == Ok::<(nat, int), Seq<char>>(
                (rule_count as nat, rules_start),
            ),
            records_at(bytes@, rules_start, rule_count as nat) == Ok::<
                (Seq<RuleRecordModel>, int),
                Seq<char>,
            >((record_models(rules@), rules_end)),
            number_at(bytes@, rules_end, 4) == Ok::<(nat, int), Seq<char>>(
                (program_count as nat, programs_start),
            ),
        decreases program_count - j,
    {
        let ghost before = programs@;
        match cursor.read_program(rule_count) {
            Ok(entry) => {
                programs.push(entry);
                assert(program_models(programs@) =~= program_models(before).push(entry@));
            },
            Err(error) => {
                proof {
                    lemma_programs_at_fault_stays(
                        bytes@,
                        programs_start,
                        j as nat + 1,
                        program_count as nat,
                        rule_count as nat,
                    );
                }
                return Err(error);
            },
        }
        j += 1;
    }
    if cursor.offset != bytes.len() {
        return Err("compiled index has trailing bytes".to_owned());
    }
    Ok((rules, programs))
}

proof fn lemma_number_at(bytes: Seq<u8>, at: int, value: nat, width: nat)
    requires
        bytes.len() <= usize::MAX,
        value < capacity(width),
        occurs_at(bytes, le_bytes(value, width), at),
    ensures
        number_at(bytes, at, width) == Ok::<(nat, int), Seq<char>>((value, at + width)),
{
    lemma_le_round_trip(value, width);
}

proof fn lemma_string_at(bytes: Seq<u8>, at: int, text: Seq<char>)
    requires
        bytes.len() <= usize::MAX,
        fits_string(text),
        occurs_at(bytes, string_bytes(text), at),
    ensures
        string_at(bytes, at) == Ok::<(Seq<char>, int), Seq<char>>(
            (text, at + string_bytes(text).len()),
        ),
{
    let body = encode_utf8(text);
    lemma_capacities();
    lemma_widths(body.len(), 2);
    lemma_occurs_in_parts(bytes, le_bytes(body.len(), 2), body, at);
    lemma_number_at(bytes, at, body.len(), 2);
    vstd::utf8::encode_utf8_valid_utf8(text);
    vstd::utf8::encode_utf8_decode_utf8(text);
}

proof fn lemma_record_at(bytes: Seq<u8>, at: int, rule: RuleRecordModel)
    requires
        bytes.len() <= usize::MAX,
        fits_string(rule.id),
        rule.digest.len() == 32,
        occurs_at(bytes, record_bytes(rule), at),
    ensures
        record_at(bytes, at) == Ok::<(RuleRecordModel, int), Seq<char>>(
            (rule, at + record_bytes(rule).len()),
        ),
{
    let id = string_bytes(rule.id);
    let offset = le_bytes(rule.offset as nat, 8);
    let length = le_bytes(rule.length as nat, 4);
    lemma_capacities();
    lemma_widths(rule.offset as nat, 8);
    lemma_widths(rule.length as nat, 4);
    lemma_occurs_in_parts(bytes, id + offset + length, rule.digest, at);
    lemma_occurs_in_parts(bytes, id + offset, length, at);
    lemma_occurs_in_parts(bytes, id, offset, at);
    lemma_string_at(bytes, at, rule.id);
    lemma_number_at(bytes, at + id.len(), rule.offset as nat, 8);
    lemma_number_at(bytes, at + id.len() + 8, rule.length as nat, 4);
}

proof fn lemma_records_at(bytes: Seq<u8>, at: int, rules: Seq<RuleRecordModel>)
    requires
        bytes.len() <= usize::MAX,
        forall|i: int| 0 <= i < rules.len() ==> fits_string((#[trigger] rules[i]).id),
        forall|i: int| 0 <= i < rules.len() ==> (#[trigger] rules[i]).digest.len() == 32,
        occurs_at(bytes, records_bytes(rules), at),
    ensures
        records_at(bytes, at, rules.len()) == Ok::<(Seq<RuleRecordModel>, int), Seq<char>>(
            (rules, at + records_bytes(rules).len()),
        ),
    decreases rules.len(),
{
    if rules.len() > 0 {
        let front = rules.drop_last();
        lemma_occurs_in_parts(bytes, records_bytes(front), record_bytes(rules.last()), at);
        lemma_records_at(bytes, at, front);
        lemma_record_at(bytes, at + records_bytes(front).len(), rules.last());
        assert(front.push(rules.last()) =~= rules);
    } else {
        assert(rules =~= Seq::<RuleRecordModel>::empty());
    }
}

proof fn lemma_candidates_at(bytes: Seq<u8>, at: int, candidates: Seq<u32>)
    requires
        bytes.len() <= usize::MAX,
        occurs_at(bytes, candidates_bytes(candidates), at),
    ensures
        candidates_at(bytes, at, candidates.len()) == Ok::<(Seq<u32>, int), Seq<char>>(
            (candidates, at + candidates_bytes(candidates).len()),
        ),
    decreases candidates.len(),
{
    if candidates.len() > 0 {
        let front = candidates.drop_last();
        let last = candidates.last() as nat;
        lemma_capacities();
        lemma_widths(last, 4);
        lemma_occurs_in_parts(bytes, candidates_bytes(front), le_bytes(last, 4), at);
        lemma_candidates_at(bytes, at, front);
        lemma_number_at(bytes, at + candidates_bytes(front).len(), last, 4);
        assert(front.push(candidates.last()) =~= candidates);
    } else {
        assert(candidates =~= Seq::<u32>::empty());
    }
}

proof fn lemma_program_at(bytes: Seq<u8>, at: int, entry: ProgramModel, rule_count: nat)
    requires
        bytes.len() <= usize::MAX,
        fits_string(entry.program),
        entry.candidates.len() <= u32::MAX,
        0 < entry.candidates.len() <= rule_count,
        occurs_at(bytes, program_bytes(entry), at),
    ensures
        program_at(bytes, at, rule_count) == Ok::<(ProgramModel, int), Seq<char>>(
            (entry, at + program_bytes(entry).len()),
        ),
{
    let program = string_bytes(entry.program);
    let count = le_bytes(entry.candidates.len(), 4);
    let candidates = candidates_bytes(entry.candidates);
    lemma_capacities();
    lemma_widths(entry.candidates.len(), 4);
    lemma_occurs_in_parts(bytes, program + count, candidates, at);
    lemma_occurs_in_parts(bytes, program, count, at);
    lemma_string_at(bytes, at, entry.program);
    lemma_number_at(bytes, at + program.len(), entry.candidates.len(), 4);
    lemma_candidates_at(bytes, at + program.len() + 4, entry.candidates);
}

proof fn lemma_programs_at(
    bytes: Seq<u8>,
    at: int,
    programs: Seq<ProgramModel>,
    rule_count: nat,
)
    requires
        bytes.len() <= usize::MAX,
        programs_fault(programs, programs.len()) is None,
        forall|i: int|
            0 <= i < programs.len() ==> 0 < (#[trigger] programs[i]).candidates.len()
                <= rule_count,
        occurs_at(bytes, programs_bytes(programs), at),
    ensures
        programs_at(bytes, at, programs.len(), rule_count) == Ok::<
            (Seq<ProgramModel>, int),
            Seq<char>,
        >((programs, at + programs_bytes(programs).len())),
    decreases programs.len(),
{
    if programs.len() > 0 {
        let front = programs.drop_last();
        lemma_programs_fault_of_front(programs, front.len());
        lemma_occurs_in_parts(bytes, programs_bytes(front), program_bytes(programs.last()), at);
        lemma_programs_at(bytes, at, front, rule_count);
        lemma_program_at(bytes, at + programs_bytes(front).len(), programs.last(), rule_count);
        assert(front.push(programs.last()) =~= programs);
    } else {
        assert(programs =~= Seq::<ProgramModel>::empty());
    }
}

proof fn lemma_programs_fault_of_front(programs: Seq<ProgramModel>, count: nat)
    requires
        count < programs.len(),
    ensures
        programs_fault(programs.drop_last(), count) == programs_fault(programs, count),
    decreases count,
{
    if count > 0 {
        lemma_programs_fault_of_front(programs, (count - 1) as nat);
    }
}

/// An index that was encoded is decoded to the same records and programs.
pub proof fn lemma_index_round_trip(rules: Seq<RuleRecordModel>, programs: Seq<ProgramModel>)
    requires
        index_fault(rules, programs) is None,
        index_bytes(rules, programs).len() <= usize::MAX,
        forall|i: int| 0 <= i < rules.len() ==> (#[trigger] rules[i]).digest.len() == 32,
        forall|i: int|
            0 <= i < programs.len() ==> 0 < (#[trigger] programs[i]).candidates.len()
                <= rules.len(),
    ensures
        decoded_index(index_bytes(rules, programs), rules.len(), programs.len()) == Ok::<
            (Seq<RuleRecordModel>, Seq<ProgramModel>),
            Seq<char>,
        >((rules, programs)),
{
    let bytes = index_bytes(rules, programs);
    let rule_count = le_bytes(rules.len(), 4);
    let program_count = le_bytes(programs.len(), 4);
    let records = records_bytes(rules);
    lemma_capacities();
    lemma_widths(rules.len(), 4);
    lemma_widths(programs.len(), 4);
    assert(bytes.subrange(0, bytes.len() as int) =~= bytes);
    lemma_occurs_in_parts(
        bytes,
        rule_count + records + program_count,
        programs_bytes(programs),
        0,
    );
    lemma_occurs_in_parts(bytes, rule_count + records, program_count, 0);
    lemma_occurs_in_parts(bytes, rule_count, records, 0);
    lemma_number_at(bytes, 0, rules.len(), 4);
    lemma_records_at(bytes, 4, rules);
    lemma_number_at(bytes, 4int + records.len(), programs.len(), 4);
    lemma_programs_at(bytes, 8int + records.len(), programs, rules.len());
}

} // verus!
