//! A pack that was compiled opens again, with the records that were compiled.
use vstd::prelude::*;
use vstd::utf8::encode_utf8;

use super::compiled::{
    PackModel, all_programs, bodies_fault, candidates_of, compile_fault, compiled,
    lemma_ids_differ, opened, ordered_bodies, program_table, record_section, record_table,
    rule_ids, rule_order,
};
use super::header::{header_bytes, lemma_header_round_trip};
use super::index::{ProgramModel, RuleRecordModel, index_bytes, lemma_index_round_trip};
use super::model::{PackManifest, Rule};
use super::sections::{
    ascending_numbers, covers_exactly, holds_byte, is_held, program_fault, program_names,
    program_table_fault, record_fault, record_ids, records_fault, table_fault,
};
use super::validation::{MAX_COMPILED_BYTES, MAX_SOURCE_FILE_BYTES, is_program_name, rule_fault};
use crate::digest::sha256;
use crate::order::{lemma_ordered_set, ordered_set, same_members, strictly_ascending};
use crate::text::texts;

verus! {

/// Every rule of the pack has an encoding that is not empty.
pub open spec fn all_encoded(bodies: Seq<Result<Seq<u8>, Seq<char>>>) -> bool {
    forall|i: int|
        0 <= i < bodies.len() ==> (#[trigger] bodies[i]) is Ok && bodies[i]->Ok_0.len() > 0
}

proof fn lemma_body_lengths(
    ids: Seq<Seq<char>>,
    bodies: Seq<Result<Seq<u8>, Seq<char>>>,
    count: nat,
    index: int,
)
    requires
        bodies_fault(ids, bodies, count) is None,
        0 <= index < count,
    ensures
        bodies[index] is Ok,
        bodies[index]->Ok_0.len() <= MAX_SOURCE_FILE_BYTES,
    decreases count,
{
    if index < count - 1 {
        lemma_body_lengths(ids, bodies, (count - 1) as nat, index);
    }
}

proof fn lemma_section_grows(
    bodies: Seq<Result<Seq<u8>, Seq<char>>>,
    small: nat,
    large: nat,
)
    requires
        small <= large,
    ensures
        record_section(bodies, small).len() <= record_section(bodies, large).len(),
        record_section(bodies, large).subrange(0, record_section(bodies, small).len() as int)
            == record_section(bodies, small),
    decreases large,
{
    let whole = record_section(bodies, large);
    let part = record_section(bodies, small);
    if small < large {
        lemma_section_grows(bodies, small, (large - 1) as nat);
        let front = record_section(bodies, (large - 1) as nat);
        assert(whole.subrange(0, part.len() as int) =~= front.subrange(0, part.len() as int));
    } else {
        assert(whole.subrange(0, part.len() as int) =~= part);
    }
}

/// The bytes of a record are found at its offset.
proof fn lemma_record_in_section(
    bodies: Seq<Result<Seq<u8>, Seq<char>>>,
    index: nat,
    count: nat,
)
    requires
        index < count,
    ensures
        ({
            let section = record_section(bodies, count);
            let start = record_section(bodies, index).len();
            let body = bodies[index as int]->Ok_0;
            &&& start + body.len() <= section.len()
            &&& start + body.len() == record_section(bodies, index + 1).len()
            &&& section.subrange(start as int, (start + body.len()) as int) == body
        }),
{
    let section = record_section(bodies, count);
    let front = record_section(bodies, index);
    let body = bodies[index as int]->Ok_0;
    let upto = record_section(bodies, index + 1);
    lemma_section_grows(bodies, index + 1, count);
    assert(upto == front + body);
    assert(section.subrange(front.len() as int, (front.len() + body.len()) as int) =~= body) by {
        assert forall|i: int| 0 <= i < body.len() implies section[front.len() + i] == body[i] by {
            assert(section.subrange(0, upto.len() as int)[front.len() + i] == upto[front.len()
                + i]);
        }
    }
}

proof fn lemma_byte_has_record(
    bodies: Seq<Result<Seq<u8>, Seq<char>>>,
    count: nat,
    at: int,
) -> (index: nat)
    requires
        0 <= at < record_section(bodies, count).len(),
    ensures
        index < count,
        record_section(bodies, index).len() <= at < record_section(bodies, index + 1).len(),
    decreases count,
{
    if count == 0 {
        0
    } else if record_section(bodies, (count - 1) as nat).len() <= at {
        (count - 1) as nat
    } else {
        lemma_byte_has_record(bodies, (count - 1) as nat, at)
    }
}

proof fn lemma_candidates(
    rules: Seq<Rule>,
    order: Seq<int>,
    program: Seq<char>,
    count: nat,
)
    requires
        count <= u32::MAX,
    ensures
        ({
            let found = candidates_of(rules, order, program, count);
            &&& found.len() <= count
            &&& ascending_numbers(found)
            &&& forall|i: int| 0 <= i < found.len() ==> (#[trigger] found[i]) < count
            &&& forall|k: int|
                0 <= k < count && texts(rules[#[trigger] order[k]].matcher.program@).contains(
                    program,
                ) ==> found.len() > 0
        }),
    decreases count,
{
    if count > 0 {
        lemma_candidates(rules, order, program, (count - 1) as nat);
    }
}

proof fn lemma_all_programs(rules: Seq<Rule>, count: nat)
    requires
        count <= rules.len(),
        forall|i: int| 0 <= i < count ==> rule_fault(#[trigger] rules[i]) is None,
    ensures
        count <= all_programs(rules, count).len() <= 32 * count,
        forall|program: Seq<char>| #[trigger]
            all_programs(rules, count).contains(program) ==> is_program_name(encode_utf8(program))
                && exists|i: int|
                0 <= i < count && texts((#[trigger] rules[i]).matcher.program@).contains(program),
    decreases count,
{
    if count > 0 {
        let front = all_programs(rules, (count - 1) as nat);
        let rule = rules[count - 1];
        let own = texts(rule.matcher.program@);
        lemma_all_programs(rules, (count - 1) as nat);
        assert(rule_fault(rule) is None);
        reveal(rule_fault);
        assert(all_programs(rules, count) == front + own);
        assert forall|program: Seq<char>| #[trigger]
            all_programs(rules, count).contains(program) implies is_program_name(
            encode_utf8(program),
        ) && exists|i: int|
            0 <= i < count && texts((#[trigger] rules[i]).matcher.program@).contains(program) by {
            let k = (front + own).index_of(program);
            if k < front.len() {
                assert(front[k] == program);
                assert(front.contains(program));
                let i = choose|i: int|
                    0 <= i < count - 1 && texts((#[trigger] rules[i]).matcher.program@).contains(
                        program,
                    );
                assert(texts(rules[i].matcher.program@).contains(program));
            } else {
                assert(own[k - front.len()] == program);
                assert(own.contains(program));
                lemma_program_is_valid(own, own.len(), k - front.len());
                assert(texts(rules[count - 1].matcher.program@).contains(program));
            }
        }
    }
}

proof fn lemma_program_is_valid(programs: Seq<Seq<char>>, count: nat, index: int)
    requires
        super::validation::programs_fault(programs, count) is None,
        0 <= index < count,
    ensures
        is_program_name(encode_utf8(programs[index])),
    decreases count,
{
    if index < count - 1 {
        lemma_program_is_valid(programs, (count - 1) as nat, index);
    }
}

proof fn lemma_no_repeats(names: Seq<Seq<char>>)
    requires
        strictly_ascending(names),
    ensures
        names.no_duplicates(),
{
    assert forall|i: int, j: int| 0 <= i < j < names.len() implies names[i] != names[j] by {
        crate::order::lemma_irreflexive(names[i]);
    }
}

proof fn lemma_same_sets(left: Seq<Seq<char>>, right: Seq<Seq<char>>)
    requires
        same_members(left, right),
    ensures
        left.to_set() == right.to_set(),
{
    assert(left.to_set() =~= right.to_set()) by {
        assert forall|value: Seq<char>| left.to_set().contains(value) <==> right.to_set().contains(
            value,
        ) by {
            assert(left.contains(value) <==> right.contains(value));
        }
    }
}

/// There is a strictly ascending list of given texts.
pub proof fn lemma_ordered_set_exists(values: Seq<Seq<char>>)
    ensures
        strictly_ascending(ordered_set(values)),
        same_members(ordered_set(values), values),
        ordered_set(values).no_duplicates(),
        ordered_set(values).len() <= values.len(),
        values.no_duplicates() ==> ordered_set(values).len() == values.len(),
    decreases values.len(),
{
    let list = lemma_some_order(values);
    lemma_ordered_set(list, values);
    lemma_no_repeats(list);
    lemma_same_sets(list, values);
    list.unique_seq_to_set();
    values.lemma_cardinality_of_set();
    if values.no_duplicates() {
        values.unique_seq_to_set();
    }
}

proof fn lemma_some_order(values: Seq<Seq<char>>) -> (list: Seq<Seq<char>>)
    ensures
        strictly_ascending(list),
        same_members(list, values),
    decreases values.len(),
{
    if values.len() == 0 {
        values
    } else {
        let front = lemma_some_order(values.drop_last());
        let value = values.last();
        crate::order::lemma_members_of_push(values.drop_last(), value);
        assert(values =~= values.drop_last().push(value));
        if front.contains(value) {
            assert(same_members(front, values)) by {
                assert forall|text: Seq<char>| front.contains(text) <==> #[trigger] values.contains(
                    text,
                ) by {
                    assert(front.contains(text) <==> values.drop_last().contains(text));
                }
            }
            front
        } else {
            let list = lemma_place(front, value, 0);
            assert(same_members(list, values)) by {
                assert forall|text: Seq<char>| list.contains(text) <==> #[trigger] values.contains(
                    text,
                ) by {
                    assert(front.contains(text) <==> values.drop_last().contains(text));
                }
            }
            list
        }
    }
}

/// A text has its place in a strictly ascending list.
proof fn lemma_place(list: Seq<Seq<char>>, value: Seq<char>, at: int) -> (result: Seq<Seq<char>>)
    requires
        strictly_ascending(list),
        !list.contains(value),
        0 <= at <= list.len(),
        forall|i: int| 0 <= i < at ==> crate::order::comes_before(#[trigger] list[i], value),
    ensures
        strictly_ascending(result),
        forall|text: Seq<char>| #[trigger]
            result.contains(text) <==> list.contains(text) || text == value,
    decreases list.len() - at,
{
    if at < list.len() && crate::order::comes_before(list[at], value) {
        lemma_place(list, value, at + 1)
    } else {
        let result = list.insert(at, value);
        if at < list.len() {
            assert(list.contains(list[at]));
            crate::order::lemma_total(list[at], value);
        }
        assert forall|a: int, b: int| 0 <= a < b < result.len() implies crate::order::comes_before(
            #[trigger] result[a],
            #[trigger] result[b],
        ) by {
            if a > at {
                assert(crate::order::comes_before(list[a - 1], list[b - 1]));
            } else if a == at {
                if b - 1 > at {
                    assert(crate::order::comes_before(list[at], list[b - 1]));
                    crate::order::lemma_transitive(value, list[at], list[b - 1]);
                }
            } else if b < at {
                assert(crate::order::comes_before(list[a], list[b]));
            } else if b > at {
                assert(crate::order::comes_before(list[a], list[b - 1]));
            }
        }
        assert forall|text: Seq<char>| #[trigger] result.contains(text) <==> list.contains(text)
            || text == value by {
            if result.contains(text) {
                let k = result.index_of(text);
                if k < at {
                    assert(list[k] == text);
                } else if k > at {
                    assert(list[k - 1] == text);
                }
            }
            if list.contains(text) {
                let k = list.index_of(text);
                if k < at {
                    assert(result[k] == text);
                } else {
                    assert(result[k + 1] == text);
                }
            }
            if text == value {
                assert(result[at] == text);
            }
        }
        result
    }
}

/// The order of the rules of a pack without faults reaches every rule.
proof fn lemma_rule_order(rules: Seq<Rule>)
    requires
        forall|i: int, j: int|
            0 <= i < j < rules.len() ==> (#[trigger] rules[i]).id@ != (#[trigger] rules[j]).id@,
    ensures
        rule_order(rules).len() == rules.len(),
        forall|k: int|
            0 <= k < rules.len() ==> 0 <= #[trigger] rule_order(rules)[k] < rules.len()
                && rules[rule_order(rules)[k]].id@ == ordered_set(rule_ids(rules))[k],
        forall|i: int|
            0 <= i < rules.len() ==> #[trigger] rule_order(rules).contains(i),
{
    let ids = rule_ids(rules);
    let names = ordered_set(ids);
    let order = rule_order(rules);
    assert(ids.no_duplicates()) by {
        assert forall|i: int, j: int| 0 <= i < j < ids.len() implies ids[i] != ids[j] by {
            assert(rules[i].id@ != rules[j].id@);
        }
    }
    lemma_ordered_set_exists(ids);
    assert forall|k: int| 0 <= k < rules.len() implies 0 <= #[trigger] order[k] < rules.len()
        && rules[order[k]].id@ == names[k] by {
        assert(names.contains(names[k]));
        assert(ids.contains(names[k]));
        assert(ids[ids.index_of(names[k])] == names[k]);
    }
    assert forall|i: int| 0 <= i < rules.len() implies #[trigger] order.contains(i) by {
        assert(ids.contains(ids[i]));
        assert(names.contains(ids[i]));
        let k = names.index_of(ids[i]);
        assert(order[k] == ids.index_of(names[k]));
        assert(ids[order[k]] == ids[i]);
        assert(order[k] == i);
    }
}

/// The record table of a pack without faults is sound.
proof fn lemma_records_sound(rules: Seq<Rule>, bodies: Seq<Result<Seq<u8>, Seq<char>>>)
    requires
        forall|i: int, j: int|
            0 <= i < j < rules.len() ==> (#[trigger] rules[i]).id@ != (#[trigger] rules[j]).id@,
        forall|i: int| 0 <= i < rules.len() ==> rule_fault(#[trigger] rules[i]) is None,
        0 < rules.len(),
        bodies.len() == rules.len(),
        all_encoded(bodies),
        bodies_fault(
            ordered_set(rule_ids(rules)),
            ordered_bodies(rules, bodies),
            rules.len(),
        ) is None,
        record_section(ordered_bodies(rules, bodies), rules.len()).len() <= u64::MAX,
    ensures
        ({
            let ordered = ordered_bodies(rules, bodies);
            let table = record_table(ordered_set(rule_ids(rules)), ordered);
            let length = record_section(ordered, rules.len()).len() as u64;
            &&& table.len() == rules.len()
            &&& record_ids(table) == ordered_set(rule_ids(rules))
            &&& strictly_ascending(record_ids(table))
            &&& records_fault(table, table.len(), length) is None
            &&& covers_exactly(table, length)
        }),
{
    let names = ordered_set(rule_ids(rules));
    let ordered = ordered_bodies(rules, bodies);
    let table = record_table(names, ordered);
    let section = record_section(ordered, rules.len());
    let length = section.len() as u64;
    lemma_rule_order(rules);
    lemma_ordered_set_exists(rule_ids(rules));
    assert(record_ids(table) =~= names);
    assert forall|k: int| 0 <= k < table.len() implies {
        &&& record_fault(#[trigger] table[k], length) is None
        &&& table[k].offset == record_section(ordered, k as nat).len()
        &&& table[k].offset + table[k].length == record_section(ordered, k as nat + 1).len()
    } by {
        lemma_body_lengths(names, ordered, rules.len(), k);
        lemma_record_in_section(ordered, k as nat, rules.len());
        assert(ordered[k] == bodies[rule_order(rules)[k]]);
        assert(rule_fault(rules[rule_order(rules)[k]]) is None);
        reveal(rule_fault);
    }
    lemma_records_fault_none(table, table.len(), length);
    assert forall|at: int| 0 <= at < length implies #[trigger] is_held(table, at) by {
        let k = lemma_byte_has_record(ordered, rules.len(), at);
        assert(holds_byte(table[k as int], at));
    }
    assert forall|i: int, j: int, at: int|
        0 <= i < table.len() && 0 <= j < table.len() && #[trigger] holds_byte(table[i], at)
            && #[trigger] holds_byte(table[j], at) implies i == j by {
        if i < j {
            lemma_section_grows(ordered, i as nat + 1, j as nat);
        } else if j < i {
            lemma_section_grows(ordered, j as nat + 1, i as nat);
        }
    }
}

proof fn lemma_records_fault_none(table: Seq<RuleRecordModel>, count: nat, length: u64)
    requires
        count <= table.len(),
        forall|k: int| 0 <= k < table.len() ==> record_fault(#[trigger] table[k], length) is None,
    ensures
        records_fault(table, count, length) is None,
    decreases count,
{
    if count > 0 {
        lemma_records_fault_none(table, (count - 1) as nat, length);
    }
}

/// The program table of a pack without faults is sound.
proof fn lemma_programs_sound(rules: Seq<Rule>)
    requires
        forall|i: int, j: int|
            0 <= i < j < rules.len() ==> (#[trigger] rules[i]).id@ != (#[trigger] rules[j]).id@,
        forall|i: int| 0 <= i < rules.len() ==> rule_fault(#[trigger] rules[i]) is None,
        0 < rules.len() <= super::validation::MAX_RULES,
    ensures
        ({
            let table = program_table(rules);
            &&& 0 < table.len() <= super::header::MAX_PROGRAMS
            &&& strictly_ascending(program_names(table))
            &&& program_table_fault(table, table.len(), rules.len()) is None
            &&& forall|i: int|
                0 <= i < table.len() ==> 0 < (#[trigger] table[i]).candidates.len() <= rules.len()
        }),
{
    let all = all_programs(rules, rules.len());
    let names = ordered_set(all);
    let table = program_table(rules);
    let order = rule_order(rules);
    lemma_all_programs(rules, rules.len());
    lemma_ordered_set_exists(all);
    lemma_rule_order(rules);
    assert(all.contains(all[0]));
    assert(names.contains(all[0]));
    assert(program_names(table) =~= names);
    assert forall|p: int| 0 <= p < table.len() implies {
        &&& program_fault(#[trigger] table[p], rules.len()) is None
        &&& 0 < table[p].candidates.len() <= rules.len()
    } by {
        assert(names.contains(names[p]));
        assert(all.contains(names[p]));
        lemma_candidates(rules, order, names[p], rules.len());
        let i = choose|i: int|
            0 <= i < rules.len() && texts((#[trigger] rules[i]).matcher.program@).contains(
                names[p],
            );
        assert(texts(rules[i].matcher.program@).contains(names[p]));
        assert(order.contains(i));
        let k = order.index_of(i);
        assert(order[k] == i);
    }
    lemma_program_table_fault_none(table, table.len(), rules.len());
}

proof fn lemma_program_table_fault_none(
    table: Seq<ProgramModel>,
    count: nat,
    rule_count: nat,
)
    requires
        count <= table.len(),
        forall|p: int|
            0 <= p < table.len() ==> program_fault(#[trigger] table[p], rule_count) is None,
    ensures
        program_table_fault(table, count, rule_count) is None,
    decreases count,
{
    if count > 0 {
        lemma_program_table_fault_none(table, (count - 1) as nat, rule_count);
    }
}

/// The parts of a pack are found where its header says.
proof fn lemma_parts(
    pack_id: Seq<u8>,
    header: Seq<u8>,
    index: Seq<u8>,
    section: Seq<u8>,
)
    requires
        header.len() == 128,
    ensures
        ({
            let bytes = header + pack_id + index + section;
            let id_end = 128 + pack_id.len();
            let index_end = id_end + index.len();
            &&& bytes.len() == index_end + section.len()
            &&& bytes.subrange(0, 128) == header
            &&& bytes.subrange(128, id_end as int) == pack_id
            &&& bytes.subrange(id_end as int, index_end as int) == index
            &&& forall|from: int, to: int|
                0 <= from <= to <= section.len() ==> #[trigger] bytes.subrange(
                    index_end + from,
                    index_end + to,
                ) == section.subrange(from, to)
        }),
{
    let bytes = header + pack_id + index + section;
    let id_end = 128 + pack_id.len();
    let index_end = id_end + index.len();
    assert(bytes.subrange(0, 128) =~= header);
    assert(bytes.subrange(128, id_end as int) =~= pack_id);
    assert(bytes.subrange(id_end as int, index_end as int) =~= index);
    assert forall|from: int, to: int| 0 <= from <= to <= section.len() implies
        #[trigger] bytes.subrange(index_end + from, index_end + to) == section.subrange(
        from,
        to,
    ) by {
        assert(bytes.subrange(index_end + from, index_end + to) =~= section.subrange(from, to));
    }
}

/// What a compiled pack holds.
pub open spec fn compiled_model(
    path: Seq<char>,
    manifest: PackManifest,
    rules: Seq<Rule>,
    bodies: Seq<Result<Seq<u8>, Seq<char>>>,
    source_digest: Seq<u8>,
) -> PackModel {
    let ordered = ordered_bodies(rules, bodies);
    let records = record_table(ordered_set(rule_ids(rules)), ordered);
    let programs = program_table(rules);
    PackModel {
        path,
        id: manifest.id@,
        source_digest,
        compiled_digest: sha256(compiled(manifest, rules, bodies, source_digest)),
        rules: records,
        programs,
        records_offset: (128 + encode_utf8(manifest.id@).len() + index_bytes(
            records,
            programs,
        ).len()) as u64,
        records_len: record_section(ordered, rules.len()).len() as u64,
    }
}

/// A pack that was compiled opens, whether or not its digests are expected: its id, its digests,
/// its records and its programs are those that were compiled, and the bytes of each record are
/// the encoding of its rule.
#[verifier::rlimit(40)]
pub proof fn lemma_compiled_pack_opens(
    path: Seq<char>,
    manifest: PackManifest,
    rules: Seq<Rule>,
    bodies: Seq<Result<Seq<u8>, Seq<char>>>,
    source_digest: Seq<u8>,
    expected_source: Option<Seq<u8>>,
    expected_compiled: Option<Seq<u8>>,
)
    requires
        compile_fault(manifest, rules, bodies) is None,
        bodies.len() == rules.len(),
        all_encoded(bodies),
        source_digest.len() == 32,
        expected_source is Some ==> expected_source->0 == source_digest,
        expected_compiled is Some ==> expected_compiled->0 == sha256(
            compiled(manifest, rules, bodies, source_digest),
        ),
    ensures
        ({
            let bytes = compiled(manifest, rules, bodies, source_digest);
            let pack = compiled_model(path, manifest, rules, bodies, source_digest);
            &&& opened(path, bytes, expected_source, expected_compiled) == Ok::<
                PackModel,
                Seq<char>,
            >(pack)
            &&& pack.rules.len() == rules.len()
            &&& forall|k: int|
                0 <= k < rules.len() ==> bytes.subrange(
                    pack.records_offset + (#[trigger] pack.rules[k]).offset,
                    pack.records_offset + pack.rules[k].offset + pack.rules[k].length,
                ) == ordered_bodies(rules, bodies)[k]->Ok_0
        }),
{
    let names = ordered_set(rule_ids(rules));
    let ordered = ordered_bodies(rules, bodies);
    let records = record_table(names, ordered);
    let programs = program_table(rules);
    let section = record_section(ordered, rules.len());
    let index = index_bytes(records, programs);
    let pack_id = encode_utf8(manifest.id@);
    let header = header_bytes(
        pack_id,
        records.len(),
        programs.len(),
        index,
        section.len(),
        source_digest,
    );
    let bytes = header + pack_id + index + section;
    let pack = compiled_model(path, manifest, rules, bodies, source_digest);
    let length = 128 + pack_id.len() + index.len() + section.len();
    lemma_ids_differ(rules, rules.len());
    lemma_records_sound(rules, bodies);
    lemma_programs_sound(rules);
    assert(length <= MAX_COMPILED_BYTES);
    assert forall|i: int| 0 <= i < records.len() implies (#[trigger] records[i]).digest.len()
        == 32 by {}
    lemma_index_round_trip(records, programs);
    lemma_header_round_trip(
        pack_id,
        records.len(),
        programs.len(),
        index,
        section.len(),
        source_digest,
        length as u64,
    );
    lemma_parts(pack_id, header, index, section);
    vstd::utf8::encode_utf8_valid_utf8(manifest.id@);
    vstd::utf8::encode_utf8_decode_utf8(manifest.id@);
    assert(table_fault(records, programs, section.len() as u64) is None);
    assert forall|k: int| 0 <= k < rules.len() implies bytes.subrange(
        pack.records_offset + (#[trigger] pack.rules[k]).offset,
        pack.records_offset + pack.rules[k].offset + pack.rules[k].length,
    ) == ordered[k]->Ok_0 by {
        lemma_body_lengths(names, ordered, rules.len(), k);
        lemma_record_in_section(ordered, k as nat, rules.len());
        let start = record_section(ordered, k as nat).len() as int;
        let end = start + ordered[k]->Ok_0.len();
        assert(bytes.subrange(
            (128 + pack_id.len() + index.len()) as int + start,
            (128 + pack_id.len() + index.len()) as int + end,
        ) == section.subrange(start, end));
    }
}

} // verus!
