//! Compiled packs: how a pack is compiled, opened and verified.
use vstd::prelude::*;
use vstd::utf8::{decode_utf8, encode_utf8, valid_utf8};

use super::header::{
    HEADER_LEN, encode_header, header_bytes, header_fault, header_index_digest, index_digest,
    parse_header, parsed_header,
};
use super::index::{
    ProgramEntry, ProgramModel, RuleRecord, RuleRecordModel, decode_index, decoded_index,
    encode_index, index_bytes, index_fault, program_models, record_models,
};
use super::model::{PackManifest, Rule};
use super::source::SourcePack;
use super::sections::{compiled_id_fault, table_fault, validate_compiled_id, validate_index};
use super::validation::{
    MAX_COMPILED_BYTES, MAX_SOURCE_FILE_BYTES, manifest_fault, rule_fault, rules_fault,
    validate_manifest, validate_rule, validate_rules,
};
use crate::bytes::{append, same_bytes};
use crate::digest::{sha256, sha256_digest};
use crate::order::{insert_ordered, lemma_ordered_set, ordered_set, same_members, strictly_ascending};
use crate::text::{decimal, decode, digits, join2, join3, join4, join5, list_contains, reports, same_text, texts};

verus! {

/// The ids of some rules.
pub open spec fn rule_ids(rules: Seq<Rule>) -> Seq<Seq<char>> {
    rules.map_values(|rule: Rule| rule.id@)
}

/// The rules with their ids in ascending order, as positions.
pub open spec fn rule_order(rules: Seq<Rule>) -> Seq<int> {
    ordered_set(rule_ids(rules)).map_values(|id: Seq<char>| rule_ids(rules).index_of(id))
}

/// The encoded form of a rule, or why it has none.
pub open spec fn encoded_bodies(bodies: Seq<Result<Vec<u8>, String>>) -> Seq<
    Result<Seq<u8>, Seq<char>>,
> {
    bodies.map_values(
        |body: Result<Vec<u8>, String>|
            match body {
                Ok(bytes) => Ok(bytes@),
                Err(error) => Err(error@),
            },
    )
}

/// The encoded forms of some rules in the order of their ids.
pub open spec fn ordered_bodies(
    rules: Seq<Rule>,
    bodies: Seq<Result<Seq<u8>, Seq<char>>>,
) -> Seq<Result<Seq<u8>, Seq<char>>> {
    rule_order(rules).map_values(|index: int| bodies[index])
}

/// Why the first `count` encoded rules cannot be compiled.
pub open spec fn bodies_fault(
    ids: Seq<Seq<char>>,
    bodies: Seq<Result<Seq<u8>, Seq<char>>>,
    count: nat,
) -> Option<Seq<char>>
    decreases count,
{
    if count == 0 {
        None
    } else {
        match bodies_fault(ids, bodies, (count - 1) as nat) {
            Some(fault) => Some(fault),
            None => match bodies[count - 1] {
                Err(error) => Some("could not encode rule "@ + ids[count - 1] + ": "@ + error),
                Ok(body) => if body.len() > MAX_SOURCE_FILE_BYTES {
                    Some("compiled rule "@ + ids[count - 1] + " exceeds 65536 bytes"@)
                } else {
                    None
                },
            },
        }
    }
}

/// The first `count` encoded rules one after the other.
pub open spec fn record_section(
    bodies: Seq<Result<Seq<u8>, Seq<char>>>,
    count: nat,
) -> Seq<u8>
    decreases count,
{
    if count == 0 {
        Seq::empty()
    } else {
        record_section(bodies, (count - 1) as nat) + bodies[count - 1]->Ok_0
    }
}

/// Where each encoded rule stands in the record section.
pub open spec fn record_table(
    ids: Seq<Seq<char>>,
    bodies: Seq<Result<Seq<u8>, Seq<char>>>,
) -> Seq<RuleRecordModel> {
    Seq::new(
        ids.len(),
        |k: int|
            RuleRecordModel {
                id: ids[k],
                offset: record_section(bodies, k as nat).len() as u64,
                length: bodies[k]->Ok_0.len() as u32,
                digest: sha256(bodies[k]->Ok_0),
            },
    )
}

/// The programs of all rules.
pub open spec fn all_programs(rules: Seq<Rule>, count: nat) -> Seq<Seq<char>>
    decreases count,
{
    if count == 0 {
        Seq::empty()
    } else {
        all_programs(rules, (count - 1) as nat) + texts(rules[count - 1].matcher.program@)
    }
}

/// Which of the first `count` rules in an order cover a program.
pub open spec fn candidates_of(
    rules: Seq<Rule>,
    order: Seq<int>,
    program: Seq<char>,
    count: nat,
) -> Seq<u32>
    decreases count,
{
    if count == 0 {
        Seq::empty()
    } else {
        let earlier = candidates_of(rules, order, program, (count - 1) as nat);
        if texts(rules[order[count - 1]].matcher.program@).contains(program) {
            earlier.push((count - 1) as u32)
        } else {
            earlier
        }
    }
}

/// The programs of all rules, each with the rules that cover it.
pub open spec fn program_table(rules: Seq<Rule>) -> Seq<ProgramModel> {
    ordered_set(all_programs(rules, rules.len())).map_values(
        |program: Seq<char>|
            ProgramModel {
                program,
                candidates: candidates_of(rules, rule_order(rules), program, rules.len()),
            },
    )
}

/// The parts of a compiled pack one after the other.
pub open spec fn pack_bytes(
    pack_id: Seq<u8>,
    records: Seq<RuleRecordModel>,
    programs: Seq<ProgramModel>,
    section: Seq<u8>,
    source_digest: Seq<u8>,
) -> Seq<u8> {
    let index = index_bytes(records, programs);
    header_bytes(pack_id, records.len(), programs.len(), index, section.len(), source_digest)
        + pack_id + index + section
}

/// Why the parts of a pack cannot be compiled.
pub open spec fn parts_fault(
    pack_id: Seq<u8>,
    records: Seq<RuleRecordModel>,
    programs: Seq<ProgramModel>,
    section: Seq<u8>,
) -> Option<Seq<char>> {
    let length = 128 + pack_id.len() + index_bytes(records, programs).len() + section.len();
    match index_fault(records, programs) {
        Some(fault) => Some(fault),
        None => match header_fault(pack_id.len(), records.len(), programs.len()) {
            Some(fault) => Some(fault),
            None => if length > usize::MAX {
                Some("compiled pack size overflowed"@)
            } else if length > MAX_COMPILED_BYTES {
                Some("compiled pack exceeds 67108864 bytes"@)
            } else {
                None
            },
        },
    }
}

/// Why a pack cannot be compiled.
pub open spec fn compile_fault(
    manifest: PackManifest,
    rules: Seq<Rule>,
    bodies: Seq<Result<Seq<u8>, Seq<char>>>,
) -> Option<Seq<char>> {
    let ids = ordered_set(rule_ids(rules));
    let ordered = ordered_bodies(rules, bodies);
    match manifest_fault(manifest) {
        Some(fault) => Some(fault),
        None => match rules_fault(rules) {
            Some(fault) => Some(fault),
            None => match bodies_fault(ids, ordered, rules.len()) {
                Some(fault) => Some(fault),
                None => parts_fault(
                    encode_utf8(manifest.id@),
                    record_table(ids, ordered),
                    program_table(rules),
                    record_section(ordered, rules.len()),
                ),
            },
        },
    }
}

/// A compiled pack.
pub open spec fn compiled(
    manifest: PackManifest,
    rules: Seq<Rule>,
    bodies: Seq<Result<Seq<u8>, Seq<char>>>,
    source_digest: Seq<u8>,
) -> Seq<u8> {
    let ordered = ordered_bodies(rules, bodies);
    pack_bytes(
        encode_utf8(manifest.id@),
        record_table(ordered_set(rule_ids(rules)), ordered),
        program_table(rules),
        record_section(ordered, rules.len()),
        source_digest,
    )
}

/// The last of some rules without faults has no fault and an id of its own.
proof fn lemma_last_rule(rules: Seq<Rule>, count: nat)
    requires
        0 < count <= rules.len(),
        super::validation::each_rule_fault(rules, count) is None,
    ensures
        super::validation::each_rule_fault(rules, (count - 1) as nat) is None,
        rule_fault(rules[count - 1]) is None,
        !super::validation::has_rule_id(rules.take(count - 1), rules[count - 1].id@),
{
}

/// Rules without faults have different ids.
#[verifier::spinoff_prover]
pub proof fn lemma_ids_differ(rules: Seq<Rule>, count: nat)
    requires
        count <= rules.len(),
        super::validation::each_rule_fault(rules, count) is None,
    ensures
        forall|i: int, j: int|
            0 <= i < j < count ==> (#[trigger] rules[i]).id@ != (#[trigger] rules[j]).id@,
        forall|i: int| 0 <= i < count ==> rule_fault(#[trigger] rules[i]) is None,
    decreases count,
{
    if count > 0 {
        lemma_last_rule(rules, count);
        lemma_ids_differ(rules, (count - 1) as nat);
        let earlier = rules.take(count - 1);
        assert forall|i: int| 0 <= i < count - 1 implies (#[trigger] rules[i]).id@ != rules[count
            - 1].id@ by {
            assert(earlier[i] == rules[i]);
        }
    }
}

proof fn lemma_bodies_fault_stays(
    ids: Seq<Seq<char>>,
    bodies: Seq<Result<Seq<u8>, Seq<char>>>,
    count: nat,
    total: nat,
)
    requires
        count <= total,
        bodies_fault(ids, bodies, count) is Some,
    ensures
        bodies_fault(ids, bodies, total) == bodies_fault(ids, bodies, count),
    decreases total,
{
    if count < total {
        lemma_bodies_fault_stays(ids, bodies, count, (total - 1) as nat);
    }
}

/// The position of the rule with an id.
fn position_of(rules: &Vec<Rule>, id: &str) -> (index: usize)
    requires
        rule_ids(rules@).contains(id@),
        forall|i: int, j: int|
            0 <= i < j < rules@.len() ==> (#[trigger] rules@[i]).id@ != (#[trigger] rules@[j]).id@,
    ensures
        index < rules@.len(),
        index == rule_ids(rules@).index_of(id@),
        rules@[index as int].id@ == id@,
{
    let ghost ids = rule_ids(rules@);
    let ghost place = ids.index_of(id@);
    assert(ids[place] == rules@[place].id@);
    let mut i: usize = 0;
    while i < rules.len()
        invariant
            i <= rules.len(),
            0 <= place < rules@.len(),
            rules@[place].id@ == id@,
            place == rule_ids(rules@).index_of(id@),
            i <= place,
            forall|a: int, b: int|
                0 <= a < b < rules@.len() ==> (#[trigger] rules@[a]).id@ != (
                #[trigger] rules@[b]).id@,
        decreases rules.len() - i,
    {
        if same_text(rules[i].id.as_str(), id) {
            assert(i == place);
            return i;
        }
        i += 1;
    }
    0
}

/// The rules with their ids in ascending order, as ids and positions.
fn order_rules(rules: &Vec<Rule>) -> (result: (Vec<String>, Vec<usize>))
    requires
        forall|i: int, j: int|
            0 <= i < j < rules@.len() ==> (#[trigger] rules@[i]).id@ != (#[trigger] rules@[j]).id@,
    ensures
        texts(result.0@) == ordered_set(rule_ids(rules@)),
        strictly_ascending(texts(result.0@)),
        same_members(texts(result.0@), rule_ids(rules@)),
        result.1@.len() == result.0@.len(),
        result.1@.map_values(|index: usize| index as int) == rule_order(rules@),
        forall|k: int|
            0 <= k < result.1@.len() ==> (#[trigger] result.1@[k]) < rules@.len()
                && rules@[result.1@[k] as int].id@ == result.0@[k]@,
{
    let mut listed: Vec<String> = Vec::new();
    let mut i: usize = 0;
    assert(texts(listed@) =~= rule_ids(rules@).take(0));
    while i < rules.len()
        invariant
            i <= rules.len(),
            texts(listed@) == rule_ids(rules@).take(i as int),
        decreases rules.len() - i,
    {
        let ghost before = texts(listed@);
        let id = rules[i].id.clone();
        assert(id@ == rule_ids(rules@)[i as int]);
        listed.push(id);
        assert(texts(listed@) =~= before.push(id@));
        assert(rule_ids(rules@).take(i + 1) =~= before.push(id@));
        i += 1;
    }
    assert(rule_ids(rules@).take(rules@.len() as int) =~= rule_ids(rules@));
    let ids = crate::order::ordered(&listed);
    let ghost names = texts(ids@);
    let mut positions: Vec<usize> = Vec::new();
    let mut k: usize = 0;
    while k < ids.len()
        invariant
            k <= ids.len(),
            names == texts(ids@),
            names == ordered_set(rule_ids(rules@)),
            same_members(names, rule_ids(rules@)),
            positions@.len() == k,
            forall|a: int, b: int|
                0 <= a < b < rules@.len() ==> (#[trigger] rules@[a]).id@ != (
                #[trigger] rules@[b]).id@,
            forall|j: int|
                0 <= j < k ==> (#[trigger] positions@[j]) < rules@.len() && positions@[j]
                    == rule_ids(rules@).index_of(names[j]) && rules@[positions@[j] as int].id@
                    == ids@[j]@,
        decreases ids.len() - k,
    {
        assert(names[k as int] == ids@[k as int]@);
        assert(names.contains(names[k as int]));
        positions.push(position_of(rules, ids[k].as_str()));
        k += 1;
    }
    assert(positions@.map_values(|index: usize| index as int) =~= rule_order(rules@));
    (ids, positions)
}

/// The programs of all rules, each with the rules that cover it.
fn list_programs(rules: &Vec<Rule>, order: &Vec<usize>) -> (programs: Vec<ProgramEntry>)
    requires
        order@.map_values(|index: usize| index as int) == rule_order(rules@),
        order@.len() == rules@.len() <= u32::MAX,
        forall|k: int| 0 <= k < order@.len() ==> (#[trigger] order@[k]) < rules@.len(),
    ensures
        program_models(programs@) == program_table(rules@),
{
    let ghost all = all_programs(rules@, rules@.len());
    let names = program_list(rules);
    let ghost expected = program_table(rules@);
    let mut programs: Vec<ProgramEntry> = Vec::new();
    let mut p: usize = 0;
    assert(program_models(programs@) =~= expected.take(0));
    while p < names.len()
        invariant
            p <= names.len(),
            texts(names@) == ordered_set(all_programs(rules@, rules@.len())),
            expected == program_table(rules@),
            program_models(programs@) == expected.take(p as int),
            order@.map_values(|index: usize| index as int) == rule_order(rules@),
            order@.len() == rules@.len() <= u32::MAX,
            forall|k: int| 0 <= k < order@.len() ==> (#[trigger] order@[k]) < rules@.len(),
        decreases names.len() - p,
    {
        let ghost program = names@[p as int]@;
        assert(texts(names@)[p as int] == program);
        let mut candidates: Vec<u32> = Vec::new();
        let mut k: usize = 0;
        assert(candidates@ =~= candidates_of(rules@, rule_order(rules@), program, 0));
        while k < order.len()
            invariant
                k <= order.len(),
                p < names.len(),
                program == names@[p as int]@,
                candidates@ == candidates_of(rules@, rule_order(rules@), program, k as nat),
                order@.map_values(|index: usize| index as int) == rule_order(rules@),
                order@.len() == rules@.len() <= u32::MAX,
                forall|j: int| 0 <= j < order@.len() ==> (#[trigger] order@[j]) < rules@.len(),
            decreases order.len() - k,
        {
            assert(rule_order(rules@)[k as int] == order@[k as int] as int);
            if list_contains(rules[order[k]].matcher.program.as_slice(), names[p].as_str()) {
                candidates.push(k as u32);
            }
            k += 1;
        }
        let ghost before = program_models(programs@);
        let entry = ProgramEntry { program: names[p].clone(), candidates };
        assert(entry@ == expected[p as int]);
        programs.push(entry);
        assert(program_models(programs@) =~= before.push(entry@));
        assert(expected.take(p + 1) =~= before.push(entry@));
        p += 1;
    }
    assert(expected.take(expected.len() as int) =~= expected);
    programs
}

/// The programs of all rules in ascending order, each of them once.
fn program_list(rules: &Vec<Rule>) -> (names: Vec<String>)
    ensures
        texts(names@) == ordered_set(all_programs(rules@, rules@.len())),
{
    let mut names: Vec<String> = Vec::new();
    let mut i: usize = 0;
    while i < rules.len()
        invariant
            i <= rules.len(),
            strictly_ascending(texts(names@)),
            same_members(texts(names@), all_programs(rules@, i as nat)),
        decreases rules.len() - i,
    {
        let ghost earlier = all_programs(rules@, i as nat);
        let ghost own = texts(rules@[i as int].matcher.program@);
        let mut j: usize = 0;
        assert(earlier + own.take(0) =~= earlier);
        while j < rules[i].matcher.program.len()
            invariant
                i < rules.len(),
                own == texts(rules@[i as int].matcher.program@),
                j <= own.len(),
                strictly_ascending(texts(names@)),
                same_members(texts(names@), earlier + own.take(j as int)),
            decreases own.len() - j,
        {
            let ghost listed = earlier + own.take(j as int);
            insert_ordered(&mut names, rules[i].matcher.program[j].clone());
            proof {
                assert(earlier + own.take(j + 1) =~= listed.push(own[j as int]));
                crate::order::lemma_members_of_push(listed, own[j as int]);
            }
            j += 1;
        }
        assert(own.take(own.len() as int) =~= own);
        i += 1;
    }
    proof {
        lemma_ordered_set(texts(names@), all_programs(rules@, rules@.len()));
    }
    names
}

pub proof fn lemma_order_is_complete(names: Seq<Seq<char>>, ids: Seq<Seq<char>>)
    requires
        strictly_ascending(names),
        same_members(names, ids),
        forall|i: int, j: int| 0 <= i < j < ids.len() ==> #[trigger] ids[i] != #[trigger] ids[j],
    ensures
        names.len() == ids.len(),
{
    assert(names.no_duplicates()) by {
        assert forall|i: int, j: int| 0 <= i < j < names.len() implies names[i] != names[j] by {
            crate::order::lemma_irreflexive(names[i]);
        }
    }
    assert(ids.no_duplicates());
    assert(names.to_set() =~= ids.to_set()) by {
        assert forall|value: Seq<char>| names.to_set().contains(value) <==> ids.to_set().contains(
            value,
        ) by {
            assert(names.contains(value) <==> ids.contains(value));
        }
    }
    names.unique_seq_to_set();
    ids.unique_seq_to_set();
}

/// What the order of a pack without faults looks like.
proof fn lemma_valid_order(rules: Seq<Rule>)
    requires
        rules_fault(rules) is None,
    ensures
        forall|i: int, j: int|
            0 <= i < j < rules.len() ==> (#[trigger] rules[i]).id@ != (#[trigger] rules[j]).id@,
        forall|i: int| 0 <= i < rules.len() ==> rule_fault(#[trigger] rules[i]) is None,
        0 < rules.len() <= super::validation::MAX_RULES,
{
    lemma_ids_differ(rules, rules.len());
}

/// The record section of a pack and the table of its records.
#[verifier::loop_isolation(false)]
fn lay_out_records(
    rules: &Vec<Rule>,
    bodies: &Vec<Result<Vec<u8>, String>>,
    ids: &Vec<String>,
    order: &Vec<usize>,
) -> (result: Result<(Vec<u8>, Vec<RuleRecord>), String>)
    requires
        bodies@.len() == rules@.len() <= super::validation::MAX_RULES,
        texts(ids@) == ordered_set(rule_ids(rules@)),
        ids@.len() == rules@.len(),
        order@.len() == rules@.len(),
        order@.map_values(|index: usize| index as int) == rule_order(rules@),
        forall|k: int|
            0 <= k < order@.len() ==> (#[trigger] order@[k]) < rules@.len() && rules@[order@[k] as int].id@
                == ids@[k]@,
    ensures
        ({
            let ordered = ordered_bodies(rules@, encoded_bodies(bodies@));
            let names = ordered_set(rule_ids(rules@));
            match bodies_fault(names, ordered, rules@.len()) {
                None => result matches Ok((section, table)) && section@ == record_section(
                    ordered,
                    rules@.len(),
                ) && record_models(table@) == record_table(names, ordered),
                Some(fault) => result matches Err(error) && error@ == fault,
            }
        }),
{
    let ghost names = texts(ids@);
    let ghost ordered = ordered_bodies(rules@, encoded_bodies(bodies@));
    let ghost expected = record_table(names, ordered);
    let mut section: Vec<u8> = Vec::new();
    let mut table: Vec<RuleRecord> = Vec::new();
    let mut k: usize = 0;
    assert(section@ =~= record_section(ordered, 0));
    assert(record_models(table@) =~= expected.take(0));
    while k < order.len()
        invariant
            k <= order.len(),
            section@ == record_section(ordered, k as nat),
            section@.len() <= k * 65_536,
            record_models(table@) == expected.take(k as int),
            bodies_fault(names, ordered, k as nat) is None,
        decreases order.len() - k,
    {
        proof {
            assert(rule_order(rules@)[k as int] == order@[k as int] as int);
            assert(ordered[k as int] == encoded_bodies(bodies@)[order@[k as int] as int]);
            assert(names[k as int] == ids@[k as int]@);
        }
        let id = ids[k].as_str();
        let body: &Vec<u8> = match &bodies[order[k]] {
            Ok(body) => body,
            Err(error) => {
                proof {
                    lemma_bodies_fault_stays(names, ordered, k as nat + 1, rules@.len());
                }
                return Err(join4("could not encode rule ", id, ": ", error.as_str()));
            },
        };
        if body.len() > MAX_SOURCE_FILE_BYTES {
            proof {
                lemma_bodies_fault_stays(names, ordered, k as nat + 1, rules@.len());
            }
            return Err(join3("compiled rule ", id, " exceeds 65536 bytes"));
        }
        let record = RuleRecord {
            id: ids[k].clone(),
            offset: section.len() as u64,
            length: body.len() as u32,
            digest: sha256_digest(body.as_slice()),
        };
        let ghost before = record_models(table@);
        assert(record@ == expected[k as int]);
        table.push(record);
        assert(record_models(table@) =~= before.push(record@));
        assert(expected.take(k + 1) =~= before.push(record@));
        append(&mut section, body.as_slice());
        k += 1;
    }
    assert(expected.take(expected.len() as int) =~= expected);
    Ok((section, table))
}

/// Compile a pack into deterministic indexed bytes. `bodies` holds the canonical encoding of each
/// rule.
///
/// # Errors
///
/// Returns an error when the manifest or a rule is invalid, a rule has no encoding, or a compiled
/// size exceeds its limit.
pub fn compile(pack: &SourcePack, bodies: &Vec<Result<Vec<u8>, String>>) -> (result: Result<
    Vec<u8>,
    String,
>)
    requires
        bodies@.len() == pack.rules@.len(),
    ensures
        match compile_fault(pack.manifest, pack.rules@, encoded_bodies(bodies@)) {
            None => result matches Ok(bytes) && bytes@ == compiled(
                pack.manifest,
                pack.rules@,
                encoded_bodies(bodies@),
                pack.source_digest@,
            ),
            Some(fault) => result matches Err(error) && error@ == fault,
        },
{
    validate_manifest(&pack.manifest)?;
    validate_rules(pack.rules.as_slice())?;
    proof {
        lemma_valid_order(pack.rules@);
    }
    let (ids, order) = order_rules(&pack.rules);
    proof {
        assert forall|i: int, j: int|
            0 <= i < j < rule_ids(pack.rules@).len() implies #[trigger] rule_ids(pack.rules@)[i]
            != #[trigger] rule_ids(pack.rules@)[j] by {
            assert(pack.rules@[i].id@ != pack.rules@[j].id@);
        }
        lemma_order_is_complete(texts(ids@), rule_ids(pack.rules@));
    }
    let (section, table) = lay_out_records(&pack.rules, bodies, &ids, &order)?;
    let programs = list_programs(&pack.rules, &order);
    let index = encode_index(&table, &programs)?;
    let pack_id: &[u8] = pack.manifest.id.as_str().as_bytes();
    let header = encode_header(
        pack_id,
        table.len(),
        programs.len(),
        index.as_slice(),
        section.as_slice(),
        &pack.source_digest,
    )?;
    let Some(before_index) = HEADER_LEN.checked_add(pack_id.len()) else {
        return Err("compiled pack size overflowed".to_owned());
    };
    let Some(before_records) = before_index.checked_add(index.len()) else {
        return Err("compiled pack size overflowed".to_owned());
    };
    let Some(length) = before_records.checked_add(section.len()) else {
        return Err("compiled pack size overflowed".to_owned());
    };
    if length as u64 > MAX_COMPILED_BYTES {
        return Err("compiled pack exceeds 67108864 bytes".to_owned());
    }
    let mut output: Vec<u8> = header;
    append(&mut output, pack_id);
    append(&mut output, index.as_slice());
    append(&mut output, section.as_slice());
    Ok(output)
}

/// An opened pack: what its header and its index say.
#[derive(Debug)]
pub struct CompiledPack {
    pub path: String,
    pub id: String,
    pub source_digest: [u8; 32],
    pub compiled_digest: [u8; 32],
    pub rules: Vec<RuleRecord>,
    pub programs: Vec<ProgramEntry>,
    pub records_offset: u64,
    pub records_len: u64,
}

/// The contents of a [`CompiledPack`].
#[verifier::ext_equal]
pub struct PackModel {
    pub path: Seq<char>,
    pub id: Seq<char>,
    pub source_digest: Seq<u8>,
    pub compiled_digest: Seq<u8>,
    pub rules: Seq<RuleRecordModel>,
    pub programs: Seq<ProgramModel>,
    pub records_offset: u64,
    pub records_len: u64,
}

impl View for CompiledPack {
    type V = PackModel;

    open spec fn view(&self) -> PackModel {
        PackModel {
            path: self.path@,
            id: self.id@,
            source_digest: self.source_digest@,
            compiled_digest: self.compiled_digest@,
            rules: record_models(self.rules@),
            programs: program_models(self.programs@),
            records_offset: self.records_offset,
            records_len: self.records_len,
        }
    }
}

/// A digest that is expected, if any.
pub open spec fn expected_digest(digest: Option<[u8; 32]>) -> Option<Seq<u8>> {
    match digest {
        Some(bytes) => Some(bytes@),
        None => None,
    }
}

/// What opening the bytes of a pack gives.
pub open spec fn opened(
    path: Seq<char>,
    bytes: Seq<u8>,
    expected_source: Option<Seq<u8>>,
    expected_compiled: Option<Seq<u8>>,
) -> Result<PackModel, Seq<char>> {
    let header = bytes.subrange(0, 128);
    if bytes.len() > MAX_COMPILED_BYTES {
        Err(path + ": compiled pack exceeds 67108864 bytes"@)
    } else if expected_compiled is Some && expected_compiled->0 != sha256(bytes) {
        Err(path + ": compiled pack digest changed"@)
    } else if bytes.len() < 128 {
        Err(path + ": truncated header: failed to fill whole buffer"@)
    } else {
        match parsed_header(header, bytes.len() as u64) {
            Err(fault) => Err(fault),
            Ok(parsed) => {
                let id_end = 128 + parsed.pack_id_len;
                let index_end = id_end + parsed.index_len;
                let pack_id = bytes.subrange(128, id_end as int);
                let index = bytes.subrange(id_end as int, index_end as int);
                if expected_source is Some && expected_source->0 != parsed.source_digest {
                    Err(path + ": source digest changed"@)
                } else if !valid_utf8(pack_id) {
                    Err(path + ": pack id is not UTF-8"@)
                } else {
                    match compiled_id_fault(decode_utf8(pack_id), false, "pack"@) {
                        Some(fault) => Err(fault),
                        None => if index_digest(header, pack_id, index)
                            != parsed.header_index_digest {
                            Err(path + ": header or index digest mismatch"@)
                        } else {
                            match decoded_index(index, parsed.rule_count, parsed.program_count) {
                                Err(fault) => Err(fault),
                                Ok((rules, programs)) => match table_fault(
                                    rules,
                                    programs,
                                    parsed.records_len as u64,
                                ) {
                                    Some(fault) => Err(fault),
                                    None => Ok(
                                        PackModel {
                                            path,
                                            id: decode_utf8(pack_id),
                                            source_digest: parsed.source_digest,
                                            compiled_digest: sha256(bytes),
                                            rules,
                                            programs,
                                            records_offset: index_end as u64,
                                            records_len: parsed.records_len as u64,
                                        },
                                    ),
                                },
                            }
                        },
                    }
                }
            },
        }
    }
}

/// The rules that an index lists for a program.
pub open spec fn listed_candidates(programs: Seq<ProgramModel>, program: Seq<char>) -> Seq<u32>
    decreases programs.len(),
{
    if programs.len() == 0 {
        Seq::empty()
    } else if programs.last().program == program {
        programs.last().candidates
    } else {
        listed_candidates(programs.drop_last(), program)
    }
}

/// Why the record of a rule cannot be read from a pack.
pub open spec fn bounds_fault(pack: PackModel, index: u32) -> Option<Seq<char>> {
    if index >= pack.rules.len() {
        Some(pack.path + ": invalid rule index "@ + digits(index as nat))
    } else if pack.records_offset + pack.rules[index as int].offset > u64::MAX {
        Some("compiled record offset overflowed"@)
    } else {
        None
    }
}

/// What is wrong with the record of a rule, given its bytes and what they decode to.
pub open spec fn body_fault(
    pack: PackModel,
    index: u32,
    body: Seq<u8>,
    decoded: Result<Rule, String>,
) -> Option<Seq<char>> {
    match bounds_fault(pack, index) {
        Some(fault) => Some(fault),
        None => {
            let record = pack.rules[index as int];
            if sha256(body) != record.digest {
                Some(pack.path + ": rule record digest mismatch for "@ + record.id)
            } else {
                match decoded {
                    Err(error) => Some(pack.path + ": "@ + record.id + ": "@ + error@),
                    Ok(rule) => match rule_fault(rule) {
                        Some(fault) => Some(pack.path + ": "@ + fault),
                        None => if rule.id@ != record.id {
                            Some(pack.path + ": rule record id does not match index"@)
                        } else {
                            None
                        },
                    },
                }
            }
        },
    }
}

fn same_digest(left: &[u8; 32], right: &[u8; 32]) -> (same: bool)
    ensures
        same == (left@ == right@),
{
    same_bytes(left.as_slice(), right.as_slice())
}

impl CompiledPack {
    /// Open the bytes of a pack and verify its header and its index.
    ///
    /// # Errors
    ///
    /// Returns an error for an incompatible format, a corrupt index, or a digest that differs
    /// from the expected one.
    pub fn open(
        path: &str,
        bytes: &[u8],
        expected_source_digest: Option<[u8; 32]>,
        expected_compiled_digest: Option<[u8; 32]>,
    ) -> (result: Result<CompiledPack, String>)
        ensures
            match opened(
                path@,
                bytes@,
                expected_digest(expected_source_digest),
                expected_digest(expected_compiled_digest),
            ) {
                Ok(model) => result matches Ok(pack) && pack@ == model,
                Err(fault) => result matches Err(error) && error@ == fault,
            },
    {
        if bytes.len() as u64 > MAX_COMPILED_BYTES {
            return Err(join2(path, ": compiled pack exceeds 67108864 bytes"));
        }
        let compiled_digest = sha256_digest(bytes);
        if let Some(expected) = expected_compiled_digest {
            if !same_digest(&expected, &compiled_digest) {
                return Err(join2(path, ": compiled pack digest changed"));
            }
        }
        if bytes.len() < HEADER_LEN {
            return Err(join2(path, ": truncated header: failed to fill whole buffer"));
        }
        let header: &[u8] = &bytes[0..128];
        let parsed = parse_header(header, bytes.len() as u64)?;
        if let Some(expected) = expected_source_digest {
            if !same_digest(&expected, &parsed.source_digest) {
                return Err(join2(path, ": source digest changed"));
            }
        }
        let id_end: usize = 128 + parsed.pack_id_len;
        let index_end: usize = id_end + parsed.index_len;
        let pack_id: &[u8] = &bytes[128..id_end];
        let Some(id) = decode(pack_id) else {
            return Err(join2(path, ": pack id is not UTF-8"));
        };
        proof {
            vstd::utf8::encode_utf8_decode_utf8(id@);
        }
        validate_compiled_id(id.as_str(), false, "pack")?;
        let index: &[u8] = &bytes[id_end..index_end];
        let digest = header_index_digest(header, pack_id, index);
        if !same_digest(&digest, &parsed.header_index_digest) {
            return Err(join2(path, ": header or index digest mismatch"));
        }
        let (rules, programs) = decode_index(index, parsed.rule_count, parsed.program_count)?;
        validate_index(rules.as_slice(), programs.as_slice(), parsed.records_len)?;
        Ok(
            CompiledPack {
                path: path.to_owned(),
                id,
                source_digest: parsed.source_digest,
                compiled_digest,
                rules,
                programs,
                records_offset: index_end as u64,
                records_len: parsed.records_len,
            },
        )
    }

    /// The rules that may cover a program.
    #[must_use]
    pub fn candidate_indices(&self, program: &str) -> (candidates: &[u32])
        ensures
            candidates@ == listed_candidates(self@.programs, program@),
    {
        let ghost entries = self@.programs;
        let mut i: usize = self.programs.len();
        assert(entries.take(entries.len() as int) =~= entries);
        while i > 0
            invariant
                i <= self.programs.len(),
                entries == program_models(self.programs@),
                listed_candidates(entries, program@) == listed_candidates(
                    entries.take(i as int),
                    program@,
                ),
            decreases i,
        {
            assert(entries[i - 1] == self.programs@[i - 1]@);
            assert(entries.take(i as int).drop_last() =~= entries.take(i - 1));
            if same_text(self.programs[i - 1].program.as_str(), program) {
                return self.programs[i - 1].candidates.as_slice();
            }
            i -= 1;
        }
        let nothing: &[u32] = &[];
        assert(nothing@ =~= Seq::<u32>::empty());
        nothing
    }

    /// Where the record of a rule stands in the file, and how long it is.
    ///
    /// # Errors
    ///
    /// Returns an error when the index names no rule.
    pub fn record_bounds(&self, index: u32) -> (result: Result<(u64, u32), String>)
        ensures
            match bounds_fault(self@, index) {
                None => result matches Ok((start, length)) && start == self@.records_offset
                    + self@.rules[index as int].offset && length
                    == self@.rules[index as int].length,
                Some(fault) => result matches Err(error) && error@ == fault,
            },
    {
        if index as usize >= self.rules.len() {
            return Err(
                join3(self.path.as_str(), ": invalid rule index ", decimal(index as u64).as_str()),
            );
        }
        let record = &self.rules[index as usize];
        assert(self@.rules[index as int] == record@);
        let Some(start) = self.records_offset.checked_add(record.offset) else {
            return Err("compiled record offset overflowed".to_owned());
        };
        Ok((start, record.length))
    }

    /// Check the record of a rule without taking the rule.
    pub(crate) fn check_record(&self, index: u32, body: &[u8], decoded: &Result<Rule, String>) -> (result:
        Result<(), String>)
        ensures
            reports(result, body_fault(self@, index, body@, *decoded)),
    {
        let bounds = self.record_bounds(index)?;
        let record = &self.rules[index as usize];
        assert(self@.rules[index as int] == record@);
        let path = self.path.as_str();
        let digest = sha256_digest(body);
        if !same_digest(&digest, &record.digest) {
            return Err(join3(path, ": rule record digest mismatch for ", record.id.as_str()));
        }
        match decoded {
            Err(error) => Err(join5(path, ": ", record.id.as_str(), ": ", error.as_str())),
            Ok(rule) => {
                if let Err(fault) = validate_rule(rule) {
                    return Err(join3(path, ": ", fault.as_str()));
                }
                if !same_text(rule.id.as_str(), record.id.as_str()) {
                    return Err(join2(path, ": rule record id does not match index"));
                }
                Ok(())
            },
        }
    }

    /// Check the record of a rule, given its bytes and what they decode to.
    ///
    /// # Errors
    ///
    /// Returns an error when the index is invalid or the record is corrupt or invalid.
    pub fn read_rule(&self, index: u32, body: &[u8], decoded: Result<Rule, String>) -> (result:
        Result<Rule, String>)
        ensures
            match body_fault(self@, index, body@, decoded) {
                None => result matches Ok(rule) && decoded == Ok::<Rule, String>(rule),
                Some(fault) => result matches Err(error) && error@ == fault,
            },
    {
        self.check_record(index, body, &decoded)?;
        decoded
    }

    /// Require bytes to be those that the pack was opened from.
    ///
    /// # Errors
    ///
    /// Returns an error when the bytes have another digest.
    pub fn verify_compiled_digest(&self, bytes: &[u8]) -> (result: Result<(), String>)
        ensures
            reports(
                result,
                if sha256(bytes@) != self@.compiled_digest {
                    Some(self@.path + ": compiled pack changed while loading"@)
                } else {
                    None
                },
            ),
    {
        let digest = sha256_digest(bytes);
        if !same_digest(&digest, &self.compiled_digest) {
            return Err(join2(self.path.as_str(), ": compiled pack changed while loading"));
        }
        Ok(())
    }

    /// The length of the record section.
    #[must_use]
    pub fn records_len(&self) -> (length: u64)
        ensures
            length == self@.records_len,
    {
        self.records_len
    }
}

} // verus!
