//! What holds of the index of a compiled pack and of its record section.
use vstd::prelude::*;
use vstd::utf8::encode_utf8;

use super::index::{ProgramEntry, ProgramModel, RuleRecord, RuleRecordModel, program_models, record_models};
use super::validation::{
    MAX_SOURCE_FILE_BYTES, adjacent_separators, all_ascii, has_adjacent_separators, is_identifier,
    is_program_name, only_ascii, program_name, words_and_separators,
};
use crate::order::{comes_before, is_before, lemma_transitive, strictly_ascending};
use crate::text::{join3, reports};

verus! {

/// A well-formed identifier of a compiled pack.
pub open spec fn is_compiled_id(id: Seq<char>, slash: bool) -> bool {
    let bytes = encode_utf8(id);
    &&& 0 < bytes.len() <= 128
    &&& all_ascii(bytes)
    &&& is_identifier(bytes, slash)
    &&& !has_adjacent_separators(bytes, slash)
}

/// What is wrong with an identifier of a compiled pack.
pub open spec fn compiled_id_fault(id: Seq<char>, slash: bool, label: Seq<char>) -> Option<
    Seq<char>,
> {
    if is_compiled_id(id, slash) {
        None
    } else {
        Some("invalid compiled "@ + label + " id"@)
    }
}

/// Validate an identifier of a compiled pack.
///
/// # Errors
///
/// Returns an error when the identifier is empty, too long or not made of words and single
/// separators.
pub fn validate_compiled_id(id: &str, slash: bool, label: &str) -> (result: Result<(), String>)
    ensures
        reports(result, compiled_id_fault(id@, slash, label@)),
{
    let bytes: &[u8] = id.as_bytes();
    if bytes.len() == 0 || bytes.len() > 128 || !only_ascii(bytes) || !words_and_separators(
        bytes,
        slash,
    ) || adjacent_separators(bytes, slash) {
        return Err(join3("invalid compiled ", label, " id"));
    }
    Ok(())
}

/// The ids of some records.
pub open spec fn record_ids(rules: Seq<RuleRecordModel>) -> Seq<Seq<char>> {
    rules.map_values(|rule: RuleRecordModel| rule.id)
}

/// The names of some programs.
pub open spec fn program_names(programs: Seq<ProgramModel>) -> Seq<Seq<char>> {
    programs.map_values(|entry: ProgramModel| entry.program)
}

/// What is wrong with a record by itself.
pub open spec fn record_fault(rule: RuleRecordModel, records_len: u64) -> Option<Seq<char>> {
    match compiled_id_fault(rule.id, true, "rule"@) {
        Some(fault) => Some(fault),
        None => if rule.offset + rule.length > u64::MAX {
            Some("compiled rule bounds overflowed"@)
        } else if rule.length == 0 || rule.length > MAX_SOURCE_FILE_BYTES || rule.offset
            + rule.length > records_len {
            Some("compiled rule record is out of bounds"@)
        } else {
            None
        },
    }
}

/// What is wrong with the first `count` records, each by itself.
pub open spec fn records_fault(
    rules: Seq<RuleRecordModel>,
    count: nat,
    records_len: u64,
) -> Option<Seq<char>>
    decreases count,
{
    if count == 0 {
        None
    } else {
        match records_fault(rules, (count - 1) as nat, records_len) {
            Some(fault) => Some(fault),
            None => record_fault(rules[count - 1], records_len),
        }
    }
}

/// The byte at `at` of the record section belongs to a record.
pub open spec fn holds_byte(rule: RuleRecordModel, at: int) -> bool {
    rule.offset <= at < rule.offset + rule.length
}

/// The byte at `at` of the record section belongs to one of the records.
pub open spec fn is_held(rules: Seq<RuleRecordModel>, at: int) -> bool {
    exists|i: int| 0 <= i < rules.len() && #[trigger] holds_byte(rules[i], at)
}

/// Every byte of the record section belongs to exactly one record.
pub open spec fn covers_exactly(rules: Seq<RuleRecordModel>, records_len: u64) -> bool {
    &&& rules.len() > 0
    &&& forall|at: int| 0 <= at < records_len ==> #[trigger] is_held(rules, at)
    &&& forall|i: int, j: int, at: int|
        0 <= i < rules.len() && 0 <= j < rules.len() && #[trigger] holds_byte(rules[i], at)
            && #[trigger] holds_byte(rules[j], at) ==> i == j
}

/// Each number is smaller than those that follow it.
pub open spec fn ascending_numbers(values: Seq<u32>) -> bool {
    forall|i: int, j: int| 0 <= i < j < values.len() ==> #[trigger] values[i] < #[trigger] values[j]
}

/// What is wrong with a program by itself.
pub open spec fn program_fault(entry: ProgramModel, rule_count: nat) -> Option<Seq<char>> {
    if !is_program_name(encode_utf8(entry.program)) {
        Some("invalid compiled program"@)
    } else if !ascending_numbers(entry.candidates) {
        Some("program candidates are not strictly sorted"@)
    } else if exists|i: int|
        0 <= i < entry.candidates.len() && #[trigger] entry.candidates[i] >= rule_count {
        Some("program candidate is out of bounds"@)
    } else {
        None
    }
}

/// What is wrong with the first `count` programs, each by itself.
pub open spec fn program_table_fault(
    programs: Seq<ProgramModel>,
    count: nat,
    rule_count: nat,
) -> Option<Seq<char>>
    decreases count,
{
    if count == 0 {
        None
    } else {
        match program_table_fault(programs, (count - 1) as nat, rule_count) {
            Some(fault) => Some(fault),
            None => program_fault(programs[count - 1], rule_count),
        }
    }
}

/// What is wrong with an index over a record section of `records_len` bytes.
pub open spec fn table_fault(
    rules: Seq<RuleRecordModel>,
    programs: Seq<ProgramModel>,
    records_len: u64,
) -> Option<Seq<char>> {
    if !strictly_ascending(record_ids(rules)) {
        Some("compiled rule table is not strictly sorted"@)
    } else if !strictly_ascending(program_names(programs)) {
        Some("compiled program table is not strictly sorted"@)
    } else {
        match records_fault(rules, rules.len(), records_len) {
            Some(fault) => Some(fault),
            None => if !covers_exactly(rules, records_len) {
                Some("compiled rule records must cover the record section exactly"@)
            } else {
                program_table_fault(programs, programs.len(), rules.len())
            },
        }
    }
}

proof fn lemma_records_fault_stays(
    rules: Seq<RuleRecordModel>,
    count: nat,
    total: nat,
    records_len: u64,
)
    requires
        count <= total,
        records_fault(rules, count, records_len) is Some,
    ensures
        records_fault(rules, total, records_len) == records_fault(rules, count, records_len),
    decreases total,
{
    if count < total {
        lemma_records_fault_stays(rules, count, (total - 1) as nat, records_len);
    }
}

/// No record is at fault if the table is not.
pub proof fn lemma_no_record_fault(
    rules: Seq<RuleRecordModel>,
    count: nat,
    records_len: u64,
    index: int,
)
    requires
        records_fault(rules, count, records_len) is None,
        0 <= index < count,
    ensures
        record_fault(rules[index], records_len) is None,
    decreases count,
{
    if index < count - 1 {
        lemma_no_record_fault(rules, (count - 1) as nat, records_len, index);
    }
}

proof fn lemma_program_table_fault_stays(
    programs: Seq<ProgramModel>,
    count: nat,
    total: nat,
    rule_count: nat,
)
    requires
        count <= total,
        program_table_fault(programs, count, rule_count) is Some,
    ensures
        program_table_fault(programs, total, rule_count) == program_table_fault(
            programs,
            count,
            rule_count,
        ),
    decreases total,
{
    if count < total {
        lemma_program_table_fault_stays(programs, count, (total - 1) as nat, rule_count);
    }
}

/// No program is at fault if the table is not.
pub proof fn lemma_no_program_fault(
    programs: Seq<ProgramModel>,
    count: nat,
    rule_count: nat,
    index: int,
)
    requires
        program_table_fault(programs, count, rule_count) is None,
        0 <= index < count,
    ensures
        program_fault(programs[index], rule_count) is None,
    decreases count,
{
    if index < count - 1 {
        lemma_no_program_fault(programs, (count - 1) as nat, rule_count, index);
    }
}

proof fn lemma_neighbours_ascend(values: Seq<Seq<char>>)
    requires
        forall|i: int|
            0 < i < values.len() ==> comes_before(values[i - 1], #[trigger] values[i]),
    ensures
        strictly_ascending(values),
{
    assert forall|i: int, j: int| 0 <= i < j < values.len() implies comes_before(
        #[trigger] values[i],
        #[trigger] values[j],
    ) by {
        lemma_far_neighbours(values, i, j);
    }
}

proof fn lemma_far_neighbours(values: Seq<Seq<char>>, i: int, j: int)
    requires
        0 <= i < j < values.len(),
        forall|k: int|
            0 < k < values.len() ==> comes_before(values[k - 1], #[trigger] values[k]),
    ensures
        comes_before(values[i], values[j]),
    decreases j - i,
{
    assert(comes_before(values[j - 1], values[j]));
    if i < j - 1 {
        lemma_far_neighbours(values, i, j - 1);
        lemma_transitive(values[i], values[j - 1], values[j]);
    }
}

fn ids_ascend(rules: &[RuleRecord]) -> (found: bool)
    ensures
        found == strictly_ascending(record_ids(record_models(rules@))),
{
    let ghost ids = record_ids(record_models(rules@));
    let mut i: usize = 1;
    while i < rules.len()
        invariant
            1 <= i,
            ids == record_ids(record_models(rules@)),
            forall|j: int|
                0 < j < i && j < rules@.len() ==> comes_before(ids[j - 1], #[trigger] ids[j]),
        decreases rules.len() - i,
    {
        assert(ids[i as int] == rules@[i as int].id@);
        assert(ids[i - 1] == rules@[i - 1].id@);
        if !is_before(rules[i - 1].id.as_str(), rules[i].id.as_str()) {
            return false;
        }
        i += 1;
    }
    proof {
        lemma_neighbours_ascend(ids);
    }
    true
}

fn names_ascend(programs: &[ProgramEntry]) -> (found: bool)
    ensures
        found == strictly_ascending(program_names(program_models(programs@))),
{
    let ghost names = program_names(program_models(programs@));
    let mut i: usize = 1;
    while i < programs.len()
        invariant
            1 <= i,
            names == program_names(program_models(programs@)),
            forall|j: int|
                0 < j < i && j < programs@.len() ==> comes_before(names[j - 1], #[trigger] names[j]),
        decreases programs.len() - i,
    {
        assert(names[i as int] == programs@[i as int].program@);
        assert(names[i - 1] == programs@[i - 1].program@);
        if !is_before(programs[i - 1].program.as_str(), programs[i].program.as_str()) {
            return false;
        }
        i += 1;
    }
    proof {
        lemma_neighbours_ascend(names);
    }
    true
}

fn numbers_ascend(values: &Vec<u32>) -> (found: bool)
    ensures
        found == ascending_numbers(values@),
{
    let mut i: usize = 1;
    while i < values.len()
        invariant
            1 <= i,
            forall|a: int, b: int|
                0 <= a < b < i && b < values@.len() ==> #[trigger] values@[a]
                    < #[trigger] values@[b],
        decreases values.len() - i,
    {
        if values[i - 1] >= values[i] {
            return false;
        }
        proof {
            assert forall|a: int, b: int|
                0 <= a < b < i + 1 && b < values@.len() implies #[trigger] values@[a]
                < #[trigger] values@[b] by {
                if b == i && a < i - 1 {
                    assert(values@[a] < values@[i - 1]);
                }
            }
        }
        i += 1;
    }
    true
}

fn exceeds(values: &Vec<u32>, limit: usize) -> (found: bool)
    ensures
        found == exists|i: int| 0 <= i < values@.len() && #[trigger] values@[i] >= limit,
{
    let mut i: usize = 0;
    while i < values.len()
        invariant
            i <= values.len(),
            forall|j: int| 0 <= j < i ==> #[trigger] values@[j] < limit,
        decreases values.len() - i,
    {
        if values[i] as usize >= limit {
            return true;
        }
        i += 1;
    }
    false
}

fn validate_record(rule: &RuleRecord, records_len: u64) -> (result: Result<(), String>)
    ensures
        reports(result, record_fault(rule@, records_len)),
{
    validate_compiled_id(rule.id.as_str(), true, "rule")?;
    let Some(end) = rule.offset.checked_add(rule.length as u64) else {
        return Err("compiled rule bounds overflowed".to_owned());
    };
    if rule.length == 0 || rule.length as usize > MAX_SOURCE_FILE_BYTES || end > records_len {
        return Err("compiled rule record is out of bounds".to_owned());
    }
    Ok(())
}

fn validate_program(entry: &ProgramEntry, rule_count: usize) -> (result: Result<(), String>)
    ensures
        reports(result, program_fault(entry@, rule_count as nat)),
{
    if !program_name(entry.program.as_str().as_bytes()) {
        return Err("invalid compiled program".to_owned());
    }
    if !numbers_ascend(&entry.candidates) {
        return Err("program candidates are not strictly sorted".to_owned());
    }
    if exceeds(&entry.candidates, rule_count) {
        return Err("program candidate is out of bounds".to_owned());
    }
    Ok(())
}

/// The record positions in the order of their offsets.
spec fn is_offset_order(order: Seq<usize>, rules: Seq<RuleRecordModel>, count: nat) -> bool {
    &&& order.len() == count
    &&& forall|k: int| 0 <= k < order.len() ==> (#[trigger] order[k]) < count
    &&& forall|a: int, b: int|
        0 <= a < b < order.len() ==> #[trigger] order[a] != #[trigger] order[b]
    &&& forall|i: int| 0 <= i < count ==> #[trigger] order.contains(i as usize)
    &&& forall|a: int, b: int|
        0 <= a < b < order.len() ==> rules[(#[trigger] order[a]) as int].offset
            <= rules[(#[trigger] order[b]) as int].offset
}

fn offset_order(rules: &[RuleRecord]) -> (order: Vec<usize>)
    ensures
        is_offset_order(order@, record_models(rules@), rules@.len()),
{
    let ghost models = record_models(rules@);
    let mut order: Vec<usize> = Vec::new();
    let mut i: usize = 0;
    while i < rules.len()
        invariant
            i <= rules.len(),
            models == record_models(rules@),
            is_offset_order(order@, models, i as nat),
        decreases rules.len() - i,
    {
        let mut position: usize = 0;
        while position < order.len() && rules[order[position]].offset <= rules[i].offset
            invariant
                i < rules.len(),
                position <= order.len(),
                models == record_models(rules@),
                is_offset_order(order@, models, i as nat),
                forall|k: int|
                    0 <= k < position ==> models[(#[trigger] order@[k]) as int].offset
                        <= models[i as int].offset,
            decreases order.len() - position,
        {
            assert(models[order@[position as int] as int] == rules@[order@[position as int] as int]@);
            position += 1;
        }
        let ghost before = order@;
        order.insert(position, i);
        proof {
            let at = position as int;
            assert(models[i as int] == rules@[i as int]@);
            if at < before.len() {
                assert(models[before[at] as int] == rules@[before[at] as int]@);
            }
            assert forall|a: int, b: int| 0 <= a < b < order@.len() implies models[(
            #[trigger] order@[a]) as int].offset <= models[(#[trigger] order@[b]) as int].offset
                && order@[a] != order@[b] by {
                if a > at {
                    assert(before[a - 1] == order@[a] && before[b - 1] == order@[b]);
                } else if a == at {
                    assert(order@[b] == before[b - 1]);
                    if b - 1 > at {
                        assert(models[before[at] as int].offset <= models[before[b - 1] as int].offset);
                    }
                } else if b < at {
                    assert(before[a] == order@[a] && before[b] == order@[b]);
                } else if b > at {
                    assert(before[a] == order@[a] && before[b - 1] == order@[b]);
                } else {
                    assert(before[a] == order@[a]);
                }
            }
            assert forall|j: int| 0 <= j < i + 1 implies #[trigger] order@.contains(j as usize) by {
                if j < i {
                    assert(before.contains(j as usize));
                    let k = before.index_of(j as usize);
                    if k < at {
                        assert(order@[k] == j as usize);
                    } else {
                        assert(order@[k + 1] == j as usize);
                    }
                } else {
                    assert(order@[at] == j as usize);
                }
            }
            assert forall|k: int| 0 <= k < order@.len() implies (#[trigger] order@[k]) < i + 1 by {
                if k < at {
                    assert(order@[k] == before[k]);
                } else if k > at {
                    assert(order@[k] == before[k - 1]);
                }
            }
        }
        i += 1;
    }
    order
}

/// The first `count` records in offset order stand one after the other from the start on.
spec fn chained(order: Seq<usize>, rules: Seq<RuleRecordModel>, count: int) -> bool {
    &&& count > 0 ==> rules[order[0] as int].offset == 0
    &&& forall|k: int|
        0 < k < count ==> rules[order[k - 1] as int].offset + rules[order[k - 1] as int].length
            == rules[(#[trigger] order[k]) as int].offset
}

spec fn end_of(order: Seq<usize>, rules: Seq<RuleRecordModel>, k: int) -> int {
    rules[order[k] as int].offset + rules[order[k] as int].length
}

proof fn lemma_chain_ascends(
    order: Seq<usize>,
    rules: Seq<RuleRecordModel>,
    count: int,
    a: int,
    b: int,
)
    requires
        chained(order, rules, count),
        0 <= a < b < count,
    ensures
        end_of(order, rules, a) <= rules[order[b] as int].offset,
    decreases b - a,
{
    assert(end_of(order, rules, b - 1) == rules[order[b] as int].offset);
    if a < b - 1 {
        lemma_chain_ascends(order, rules, count, a, b - 1);
    }
}

proof fn lemma_chain_covers(
    order: Seq<usize>,
    rules: Seq<RuleRecordModel>,
    count: int,
    at: int,
) -> (k: int)
    requires
        chained(order, rules, count),
        0 < count,
        0 <= at < end_of(order, rules, count - 1),
    ensures
        0 <= k < count,
        holds_byte(rules[order[k] as int], at),
    decreases count,
{
    if rules[order[count - 1] as int].offset <= at {
        count - 1
    } else {
        assert(count > 1);
        assert(end_of(order, rules, count - 2) == rules[order[count - 1] as int].offset);
        lemma_chain_covers(order, rules, count - 1, at)
    }
}

proof fn lemma_full_chain(order: Seq<usize>, rules: Seq<RuleRecordModel>, records_len: u64)
    requires
        is_offset_order(order, rules, rules.len()),
        0 < rules.len() <= usize::MAX,
        chained(order, rules, rules.len() as int),
        end_of(order, rules, rules.len() - 1) == records_len,
    ensures
        covers_exactly(rules, records_len),
{
    let count = rules.len() as int;
    assert forall|at: int| 0 <= at < records_len implies #[trigger] is_held(rules, at) by {
        let k = lemma_chain_covers(order, rules, count, at);
        assert(holds_byte(rules[order[k] as int], at));
    }
    assert forall|i: int, j: int, at: int|
        0 <= i < rules.len() && 0 <= j < rules.len() && #[trigger] holds_byte(rules[i], at)
            && #[trigger] holds_byte(rules[j], at) implies i == j by {
        assert(order.contains(i as usize));
        assert(order.contains(j as usize));
        let a = order.index_of(i as usize);
        let b = order.index_of(j as usize);
        if a < b {
            lemma_chain_ascends(order, rules, count, a, b);
        } else if b < a {
            lemma_chain_ascends(order, rules, count, b, a);
        }
    }
}

/// A chain of records that stops short of the next one, or of the end, leaves a byte out.
proof fn lemma_gap(
    order: Seq<usize>,
    rules: Seq<RuleRecordModel>,
    records_len: u64,
    count: int,
)
    requires
        is_offset_order(order, rules, rules.len()),
        rules.len() <= usize::MAX,
        covers_exactly(rules, records_len),
        forall|i: int| 0 <= i < rules.len() ==> (#[trigger] rules[i]).length > 0,
        0 < count <= rules.len(),
        chained(order, rules, count),
        end_of(order, rules, count - 1) < records_len,
    ensures
        count < rules.len(),
        rules[order[count] as int].offset == end_of(order, rules, count - 1),
{
    let end = end_of(order, rules, count - 1);
    assert(is_held(rules, end));
    let i = choose|i: int| 0 <= i < rules.len() && #[trigger] holds_byte(rules[i], end);
    assert(holds_byte(rules[i], end));
    assert(order.contains(i as usize));
    let k = order.index_of(i as usize);
    if k < count {
        if k < count - 1 {
            lemma_chain_ascends(order, rules, count, k, count - 1);
        }
        assert(false);
    }
    let next = order[count] as int;
    assert(rules[next].offset <= rules[order[k] as int].offset);
    let last = order[count - 1] as int;
    assert(rules[last].offset <= rules[next].offset);
    if rules[next].offset < end {
        assert(holds_byte(rules[last], rules[next].offset as int));
        assert(rules[next].length > 0);
        assert(holds_byte(rules[next], rules[next].offset as int));
        assert(order[count - 1] != order[count]);
    }
}

fn covered(rules: &[RuleRecord], records_len: u64) -> (found: bool)
    requires
        records_fault(record_models(rules@), rules@.len(), records_len) is None,
    ensures
        found == covers_exactly(record_models(rules@), records_len),
{
    let ghost models = record_models(rules@);
    if rules.len() == 0 {
        return false;
    }
    proof {
        assert forall|i: int| 0 <= i < models.len() implies (#[trigger] models[i]).length > 0
            && models[i].offset + models[i].length <= records_len by {
            lemma_no_record_fault(models, models.len(), records_len, i);
        }
    }
    let order = offset_order(rules);
    assert(models[order@[0] as int] == rules@[order@[0] as int]@);
    if rules[order[0]].offset != 0 {
        proof {
            if covers_exactly(models, records_len) {
                assert(models[0].offset + models[0].length <= records_len);
                assert(is_held(models, 0));
                let i = choose|i: int| 0 <= i < models.len() && #[trigger] holds_byte(models[i], 0);
                assert(holds_byte(models[i], 0));
                assert(order@.contains(i as usize));
                let k = order@.index_of(i as usize);
                if k > 0 {
                    assert(models[order@[0] as int].offset <= models[order@[k] as int].offset);
                }
            }
        }
        return false;
    }
    let mut i: usize = 1;
    while i < rules.len()
        invariant
            1 <= i <= rules.len(),
            models == record_models(rules@),
            is_offset_order(order@, models, models.len()),
            chained(order@, models, i as int),
            forall|j: int|
                0 <= j < models.len() ==> (#[trigger] models[j]).length > 0 && models[j].offset
                    + models[j].length <= records_len,
        decreases rules.len() - i,
    {
        assert(models[order@[i as int] as int] == rules@[order@[i as int] as int]@);
        assert(models[order@[i - 1] as int] == rules@[order@[i - 1] as int]@);
        let previous = &rules[order[i - 1]];
        if previous.offset + previous.length as u64 != rules[order[i]].offset {
            proof {
                if covers_exactly(models, records_len) {
                    let end = end_of(order@, models, i - 1);
                    assert(models[order@[i as int] as int].length > 0);
                    if end == records_len {
                        let last = order@[i as int] as int;
                        let before = order@[i - 1] as int;
                        assert(models[before].offset <= models[last].offset);
                        assert(holds_byte(models[last], models[last].offset as int));
                        assert(holds_byte(models[before], models[last].offset as int));
                    } else {
                        lemma_gap(order@, models, records_len, i as int);
                    }
                }
            }
            return false;
        }
        i += 1;
    }
    let last = &rules[order[rules.len() - 1]];
    assert(models[order@[rules@.len() - 1] as int] == last@);
    proof {
        if end_of(order@, models, models.len() - 1) == records_len {
            lemma_full_chain(order@, models, records_len);
        } else if covers_exactly(models, records_len) {
            lemma_gap(order@, models, records_len, models.len() as int);
        }
    }
    last.offset + last.length as u64 == records_len
}

/// Validate an index over a record section of `records_len` bytes.
///
/// # Errors
///
/// Returns an error when a table is not strictly sorted, an identifier or a program is malformed,
/// a record is out of bounds, the records do not cover their section exactly, or a program names
/// rules out of order or out of bounds.
pub fn validate_index(rules: &[RuleRecord], programs: &[ProgramEntry], records_len: u64) -> (result:
    Result<(), String>)
    ensures
        reports(
            result,
            table_fault(record_models(rules@), program_models(programs@), records_len),
        ),
{
    let ghost records = record_models(rules@);
    let ghost entries = program_models(programs@);
    if !ids_ascend(rules) {
        return Err("compiled rule table is not strictly sorted".to_owned());
    }
    if !names_ascend(programs) {
        return Err("compiled program table is not strictly sorted".to_owned());
    }
    let mut i: usize = 0;
    while i < rules.len()
        invariant
            i <= rules.len(),
            records == record_models(rules@),
            entries == program_models(programs@),
            strictly_ascending(record_ids(records)),
            strictly_ascending(program_names(entries)),
            records_fault(records, i as nat, records_len) is None,
        decreases rules.len() - i,
    {
        assert(records[i as int] == rules@[i as int]@);
        if let Err(error) = validate_record(&rules[i], records_len) {
            proof {
                lemma_records_fault_stays(records, i as nat + 1, records.len(), records_len);
            }
            return Err(error);
        }
        i += 1;
    }
    if !covered(rules, records_len) {
        return Err("compiled rule records must cover the record section exactly".to_owned());
    }
    let mut j: usize = 0;
    while j < programs.len()
        invariant
            j <= programs.len(),
            records == record_models(rules@),
            entries == program_models(programs@),
            table_fault(records, entries, records_len) == program_table_fault(
                entries,
                entries.len(),
                records.len(),
            ),
            program_table_fault(entries, j as nat, records.len()) is None,
        decreases programs.len() - j,
    {
        assert(entries[j as int] == programs@[j as int]@);
        if let Err(error) = validate_program(&programs[j], rules.len()) {
            proof {
                lemma_program_table_fault_stays(
                    entries,
                    j as nat + 1,
                    entries.len(),
                    records.len(),
                );
            }
            return Err(error);
        }
        j += 1;
    }
    Ok(())
}

} // verus!
