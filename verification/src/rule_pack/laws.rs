//! Which rules and packs are accepted, told by their contents.
use vstd::prelude::*;
use vstd::utf8::encode_utf8;

use super::compiled::{PackModel, body_fault, listed_candidates, opened};
use super::model::{Action, CommandMatcher, LinePattern, OutputPolicy, PackManifest, Reducer, Rule};
use super::source::{SourceFile, files_fault};
use super::validation::{
    action_fault, components, each_rule_fault, has_rule_id, identifier_fault, is_bad_component,
    is_rule_path, manifest_fault, matcher_fault, memory_bound, paths_fault, pattern_fault,
    policy_fault, programs_fault, reducer_fault, rule_fault, rule_memory_bound, rule_with_matcher,
    rules_fault, same_matcher, token_list_fault,
};
use super::verification::{RecordBody, bodies_fault, coverage_fault};
use crate::digest::sha256;
use crate::text::texts;

verus! {

/// A policy is accepted where its lines hold up to 1 MiB, its output 704 bytes up to 4 MiB, and it
/// asks for at most 1 MiB and at most all of the output to be saved.
pub proof fn lemma_accepted_policies(label: Seq<char>, policy: OutputPolicy)
    ensures
        policy_fault(label, policy) is None <==> {
            &&& 1 <= policy.max_line_bytes <= 1_048_576
            &&& 704 <= policy.max_output_bytes <= 4_194_304
            &&& policy.min_savings_bytes <= 1_048_576
            &&& policy.min_savings_basis_points <= 10_000
        },
{
}

/// A lower-case letter or a digit of ASCII.
pub open spec fn is_letter_or_digit(byte: u8) -> bool {
    97 <= byte <= 122 || 48 <= byte <= 57
}

/// A dot, an underscore, a dash, or a slash where that is allowed.
pub open spec fn is_mark(byte: u8, slash: bool) -> bool {
    byte == 46 || byte == 95 || byte == 45 || slash && byte == 47
}

/// An id is made of lower-case letters and digits, with single marks between them.
pub proof fn lemma_accepted_ids(id: Seq<char>, max: nat, slash: bool, label: Seq<char>)
    ensures
        identifier_fault(id, max, slash, label) is None <==> ({
            let bytes = encode_utf8(id);
            &&& 1 <= bytes.len() <= max
            &&& forall|i: int|
                0 <= i < bytes.len() ==> is_letter_or_digit(#[trigger] bytes[i]) || is_mark(
                    bytes[i],
                    slash,
                )
            &&& is_letter_or_digit(bytes[0])
            &&& is_letter_or_digit(bytes.last())
            &&& forall|i: int|
                0 <= i < bytes.len() - 1 ==> !(is_mark(#[trigger] bytes[i], slash) && is_mark(
                    bytes[i + 1],
                    slash,
                ))
        }),
{
    let bytes = encode_utf8(id);
    if identifier_fault(id, max, slash, label) is None {
        assert forall|i: int| 0 <= i < bytes.len() - 1 implies !(is_mark(#[trigger] bytes[i], slash)
            && is_mark(bytes[i + 1], slash)) by {
            assert(is_mark(bytes[i], slash) == super::validation::is_separator_byte(
                bytes[i],
                slash,
            ));
        }
    }
    if 1 <= bytes.len() <= max && forall|i: int|
        0 <= i < bytes.len() ==> is_letter_or_digit(#[trigger] bytes[i]) || is_mark(
            bytes[i],
            slash,
        ) {
        assert forall|i: int| 0 <= i < bytes.len() implies #[trigger] bytes[i] < 128 by {
            assert(is_letter_or_digit(bytes[i]) || is_mark(bytes[i], slash));
        }
        assert forall|i: int| 0 <= i < bytes.len() implies super::validation::is_word_byte(
            #[trigger] bytes[i],
        ) || super::validation::is_separator_byte(bytes[i], slash) by {
            assert(is_letter_or_digit(bytes[i]) || is_mark(bytes[i], slash));
        }
    }
}

/// A pattern is accepted where its value is not empty, holds at most 4096 bytes and no zero byte.
pub proof fn lemma_accepted_patterns(pattern: LinePattern)
    ensures
        pattern_fault(pattern) is None <==> ({
            let value = encode_utf8(pattern.value@);
            1 <= value.len() <= 4_096 && forall|i: int|
                0 <= i < value.len() ==> #[trigger] value[i] != 0
        }),
{
    let value = encode_utf8(pattern.value@);
    if value.contains(0u8) {
        let i = choose|i: int| 0 <= i < value.len() && value[i] == 0;
        assert(value[i] == 0);
    }
}

/// A rule that changes nothing has no parts. One that keeps lines has a transform alone. One that
/// reduces has a valid reducer and two valid policies, and needs at most 4 MiB for a stream.
pub proof fn lemma_parts_of_rules(rule: Rule)
    requires
        action_fault(rule) is None,
    ensures
        rule.action == Action::Passthrough ==> rule.transform is None && rule.reducer is None
            && rule.success is None && rule.failure is None,
        rule.action == Action::Transform ==> rule.transform is Some && rule.reducer is None
            && rule.success is None && rule.failure is None,
        rule.action == Action::Reduce ==> {
            &&& rule.transform is None
            &&& rule.reducer is Some && reducer_fault(rule.reducer->0) is None
            &&& rule.success is Some && policy_fault("success"@, rule.success->0) is None
            &&& rule.failure is Some && policy_fault("failure"@, rule.failure->0) is None
            &&& rule_memory_bound(rule@) matches Ok(bound) && bound <= 4_194_304
        },
{
}

/// A rule without parts that changes nothing is accepted, and so is one with a transform alone that
/// keeps lines.
pub proof fn lemma_plain_rules_are_accepted(rule: Rule)
    requires
        rule.reducer is None,
        rule.success is None,
        rule.failure is None,
    ensures
        rule.action == Action::Passthrough && rule.transform is None ==> action_fault(rule) is None,
        rule.action == Action::Transform && rule.transform is Some ==> action_fault(rule) is None,
        rule.action == Action::Reduce ==> action_fault(rule) is Some,
{
}

/// The memory that a stream of a rule may retain is at least its output and ten summaries, and two
/// ends of its longest line.
pub proof fn lemma_memory_holds_the_output(rule: Rule)
    requires
        rule.reducer is Some,
        rule.success is Some,
        rule.failure is Some,
    ensures
        ({
            let bound = memory_bound(rule.reducer->0@, rule.success->0, rule.failure->0);
            let success = rule.success->0;
            let failure = rule.failure->0;
            &&& bound >= 6 * success.max_output_bytes + 5 * failure.max_output_bytes
            &&& bound >= 5 * success.max_output_bytes + 6 * failure.max_output_bytes
            &&& bound >= 2 * success.max_line_bytes
            &&& bound >= 2 * failure.max_line_bytes
        }),
{
}

/// A line filter has at most 256 patterns, and strips control sequences or has at least one.
pub proof fn lemma_accepted_filters(reducer: Reducer)
    requires
        reducer is LineFilter,
        reducer_fault(reducer) is None,
    ensures
        reducer->drop@.len() + reducer->keep@.len() <= 256,
        reducer->strip_ansi || reducer->drop@.len() > 0 || reducer->keep@.len() > 0,
{
}

/// No two of the first texts are the same.
pub open spec fn are_distinct(values: Seq<Seq<char>>, count: nat) -> bool {
    forall|i: int, j: int| 0 <= i < j < count ==> #[trigger] values[i] != #[trigger] values[j]
}

proof fn lemma_programs(programs: Seq<Seq<char>>, count: nat)
    requires
        count <= programs.len(),
        programs_fault(programs, count) is None,
    ensures
        are_distinct(programs, count),
        forall|i: int|
            0 <= i < count ==> super::validation::is_program_name(
                encode_utf8(#[trigger] programs[i]),
            ),
    decreases count,
{
    if count > 0 {
        lemma_programs(programs, (count - 1) as nat);
        assert forall|i: int, j: int| 0 <= i < j < count implies #[trigger] programs[i]
            != #[trigger] programs[j] by {
            if j == count - 1 {
                assert(programs.take(count - 1)[i] == programs[i]);
            }
        }
    }
}

proof fn lemma_tokens(label: Seq<char>, tokens: Seq<Seq<char>>, count: nat)
    requires
        count <= tokens.len(),
        token_list_fault(label, tokens, count) is None,
    ensures
        are_distinct(tokens, count),
        forall|i: int| 0 <= i < count ==> (#[trigger] tokens[i]).len() <= 1_024,
        forall|i: int| 0 <= i < count ==> !(#[trigger] tokens[i]).contains('\0'),
    decreases count,
{
    if count > 0 {
        lemma_tokens(label, tokens, (count - 1) as nat);
        assert forall|i: int, j: int| 0 <= i < j < count implies #[trigger] tokens[i]
            != #[trigger] tokens[j] by {
            if j == count - 1 {
                assert(tokens.take(count - 1)[i] == tokens[i]);
            }
        }
    }
}

/// A byte that no program name holds: white space, or one with a meaning in paths and shells.
pub open spec fn is_unfit(byte: u8) -> bool {
    ||| byte == 32 || byte == 9 || byte == 10 || byte == 12 || byte == 13 || byte == 0
    ||| byte == 47 || byte == 92 || byte == 124 || byte == 38 || byte == 59 || byte == 60
    ||| byte == 62 || byte == 40 || byte == 41 || byte == 96 || byte == 36 || byte == 35
    ||| byte >= 128
}

/// A matcher names 1 to 32 programs and at most 64 words of each kind, none of them twice. A program
/// has 1 to 128 fit bytes, a word at most 1024 characters.
pub proof fn lemma_accepted_matchers(matcher: CommandMatcher)
    requires
        matcher_fault(matcher) is None,
    ensures
        1 <= matcher.program@.len() <= 32,
        matcher.argv_prefix@.len() <= 64,
        matcher.argv_contains_all@.len() <= 64,
        are_distinct(texts(matcher.program@), matcher.program@.len()),
        are_distinct(texts(matcher.argv_prefix@), matcher.argv_prefix@.len()),
        are_distinct(texts(matcher.argv_contains_all@), matcher.argv_contains_all@.len()),
        forall|i: int, j: int|
            0 <= i < matcher.program@.len() && 0 <= j < encode_utf8(texts(matcher.program@)[i]).len()
                ==> !is_unfit(#[trigger] encode_utf8(texts(matcher.program@)[i])[j]),
        forall|i: int|
            0 <= i < matcher.program@.len() ==> 1 <= encode_utf8(
                #[trigger] texts(matcher.program@)[i],
            ).len() <= 128,
        forall|i: int|
            0 <= i < matcher.argv_prefix@.len() ==> (#[trigger] texts(matcher.argv_prefix@)[i]).len()
                <= 1_024,
{
    lemma_programs(texts(matcher.program@), matcher.program@.len());
    lemma_tokens("argv_prefix"@, texts(matcher.argv_prefix@), matcher.argv_prefix@.len());
    lemma_tokens(
        "argv_contains_all"@,
        texts(matcher.argv_contains_all@),
        matcher.argv_contains_all@.len(),
    );
    assert forall|i: int, j: int|
        0 <= i < matcher.program@.len() && 0 <= j < encode_utf8(texts(matcher.program@)[i]).len() implies !is_unfit(
        #[trigger] encode_utf8(texts(matcher.program@)[i])[j],
    ) by {
        let program = encode_utf8(texts(matcher.program@)[i]);
        assert(super::validation::is_program_name(program));
        assert(program[j] < 128);
        assert(!super::validation::is_shell_byte(program[j]));
    }
}

proof fn lemma_no_rule_with_matcher(
    rules: Seq<Rule>,
    matcher: CommandMatcher,
    from: int,
    at: int,
)
    requires
        0 <= from <= at < rules.len(),
        rule_with_matcher(rules, matcher, from) is None,
    ensures
        !same_matcher(rules[at].matcher, matcher),
    decreases at - from,
{
    if from < at {
        lemma_no_rule_with_matcher(rules, matcher, from + 1, at);
    }
}

proof fn lemma_each_rule(rules: Seq<Rule>, count: nat)
    requires
        count <= rules.len(),
        each_rule_fault(rules, count) is None,
    ensures
        forall|i: int| 0 <= i < count ==> rule_fault(#[trigger] rules[i]) is None,
        forall|i: int, j: int|
            0 <= i < j < count ==> (#[trigger] rules[i]).id@ != (#[trigger] rules[j]).id@
                && !same_matcher(rules[i].matcher, rules[j].matcher),
    decreases count,
{
    if count > 0 {
        lemma_each_rule(rules, (count - 1) as nat);
        let earlier = rules.take(count - 1);
        let last = rules[count - 1];
        assert forall|i: int, j: int| 0 <= i < j < count implies (#[trigger] rules[i]).id@ != (
        #[trigger] rules[j]).id@ && !same_matcher(rules[i].matcher, rules[j].matcher) by {
            if j == count - 1 {
                assert(earlier[i] == rules[i]);
                assert(!has_rule_id(earlier, last.id@));
                lemma_no_rule_with_matcher(earlier, last.matcher, 0, i);
            }
        }
    }
}

/// The rules of an accepted pack are 1 to 10000 valid ones, no two of which have the same id or the
/// same matcher.
pub proof fn lemma_accepted_packs(rules: Seq<Rule>)
    requires
        rules_fault(rules) is None,
    ensures
        1 <= rules.len() <= 10_000,
        forall|i: int| 0 <= i < rules.len() ==> rule_fault(#[trigger] rules[i]) is None,
        forall|i: int, j: int|
            0 <= i < j < rules.len() ==> (#[trigger] rules[i]).id@ != (#[trigger] rules[j]).id@,
        forall|i: int, j: int|
            0 <= i < j < rules.len() ==> !(texts((#[trigger] rules[i]).matcher.program@) == texts(
                (#[trigger] rules[j]).matcher.program@,
            ) && texts(rules[i].matcher.argv_prefix@) == texts(rules[j].matcher.argv_prefix@)
                && texts(rules[i].matcher.argv_contains_all@) == texts(
                rules[j].matcher.argv_contains_all@,
            )),
{
    lemma_each_rule(rules, rules.len());
    assert forall|i: int, j: int| 0 <= i < j < rules.len() implies !(texts(
        (#[trigger] rules[i]).matcher.program@,
    ) == texts((#[trigger] rules[j]).matcher.program@) && texts(rules[i].matcher.argv_prefix@)
        == texts(rules[j].matcher.argv_prefix@) && texts(rules[i].matcher.argv_contains_all@)
        == texts(rules[j].matcher.argv_contains_all@)) by {
        assert(!same_matcher(rules[i].matcher, rules[j].matcher));
    }
}

proof fn lemma_paths(paths: Seq<Seq<char>>, count: nat)
    requires
        count <= paths.len(),
        paths_fault(paths, count) is None,
    ensures
        are_distinct(paths, count),
        forall|i: int| 0 <= i < count ==> is_rule_path(#[trigger] paths[i]),
    decreases count,
{
    if count > 0 {
        lemma_paths(paths, (count - 1) as nat);
        assert forall|i: int, j: int| 0 <= i < j < count implies #[trigger] paths[i]
            != #[trigger] paths[j] by {
            if j == count - 1 {
                assert(paths.take(count - 1)[i] == paths[i]);
            }
        }
    }
}

/// A manifest of this version names 1 to 10000 paths, none of them twice, each to a rule file of the
/// pack.
pub proof fn lemma_accepted_manifests(manifest: PackManifest)
    requires
        manifest_fault(manifest) is None,
    ensures
        manifest.schema_version == 1,
        1 <= manifest.rules@.len() <= 10_000,
        are_distinct(texts(manifest.rules@), manifest.rules@.len()),
        forall|i: int|
            0 <= i < manifest.rules@.len() ==> is_rule_path(#[trigger] texts(manifest.rules@)[i]),
        identifier_fault(manifest.id@, 128, false, "pack id"@) is None,
{
    lemma_paths(texts(manifest.rules@), manifest.rules@.len());
}

proof fn lemma_some_components(path: Seq<char>)
    ensures
        components(path).len() > 0,
    decreases path.len(),
{
    if path.len() > 0 {
        lemma_some_components(path.drop_last());
    }
}

/// A slash parts the components of a path.
pub proof fn lemma_slashes_part_paths(before: Seq<char>, after: Seq<char>)
    ensures
        components(before + seq!['/'] + after) == components(before) + components(after),
    decreases after.len(),
{
    let whole = before + seq!['/'] + after;
    lemma_some_components(after);
    if after.len() == 0 {
        assert(whole.drop_last() =~= before);
        assert(whole.last() == '/');
        assert(components(whole) =~= components(before) + components(after));
    } else {
        let rest = after.drop_last();
        assert(whole.drop_last() =~= before + seq!['/'] + rest);
        assert(whole.last() == after.last());
        lemma_slashes_part_paths(before, rest);
        lemma_some_components(rest);
        assert(components(whole) =~= components(before) + components(after));
    }
}

proof fn lemma_name_is_one_component(name: Seq<char>)
    requires
        !name.contains('/'),
    ensures
        components(name) == seq![name],
    decreases name.len(),
{
    if name.len() == 0 {
        assert(name =~= Seq::empty());
    } else {
        let rest = name.drop_last();
        assert forall|i: int| 0 <= i < rest.len() implies rest[i] != '/' by {
            assert(rest[i] == name[i]);
            assert(name.contains(name[i]));
        }
        assert(name.contains(name.last()));
        lemma_name_is_one_component(rest);
        assert(rest.push(name.last()) =~= name);
        assert(components(name) =~= seq![name]);
    }
}

/// A path to a rule file stays below its pack: it is not absolute, no directory on it is empty, `.`
/// or `..`, and it ends in `.json`.
pub proof fn lemma_rule_paths_stay_below(before: Seq<char>, name: Seq<char>, after: Seq<char>)
    requires
        name.len() == 0 || name == seq!['.'] || name == seq!['.', '.'],
    ensures
        !is_rule_path(before + seq!['/'] + name + seq!['/'] + after),
        !is_rule_path(name + seq!['/'] + after),
        !is_rule_path(seq!['/'] + after),
{
    assert(!name.contains('/'));
    lemma_name_is_one_component(name);
    let first = before + seq!['/'] + name;
    lemma_slashes_part_paths(before, name);
    lemma_slashes_part_paths(first, after);
    lemma_slashes_part_paths(name, after);
    let whole = first + seq!['/'] + after;
    let at = components(before).len() as int;
    assert(components(whole)[at] == name);
    assert(is_bad_component(components(whole)[at]));
    assert(components(name + seq!['/'] + after)[0] == name);
    assert(is_bad_component(components(name + seq!['/'] + after)[0]));
    assert((seq!['/'] + after)[0] == '/');
}

/// A plain name that ends in `.json` is the path of a rule file.
pub proof fn lemma_plain_names_are_rule_paths(name: Seq<char>)
    requires
        name.len() > 0,
        !name.contains('/'),
        !name.contains('\\'),
        !name.contains('\0'),
    ensures
        is_rule_path(name + ".json"@),
{
    reveal_strlit(".json");
    let whole = name + ".json"@;
    assert forall|i: int| 0 <= i < whole.len() implies whole[i] != '/' && whole[i] != '\\'
        && whole[i] != '\0' by {
        if i < name.len() {
            assert(whole[i] == name[i]);
            assert(name.contains(name[i]));
        } else {
            assert(whole[i] == ".json"@[i - name.len()]);
        }
    }
    lemma_name_is_one_component(whole);
    assert(whole.subrange(whole.len() - 5, whole.len() as int) =~= ".json"@);
    assert(whole.len() >= 6);
}

/// A pack that was opened is the one whose bytes were given: its digest is theirs, and digests that
/// were expected were found.
pub proof fn lemma_opened_packs_are_intact(
    path: Seq<char>,
    bytes: Seq<u8>,
    expected_source: Option<Seq<u8>>,
    expected_compiled: Option<Seq<u8>>,
)
    ensures
        opened(path, bytes, expected_source, expected_compiled) matches Ok(pack) ==> {
            &&& pack.path == path
            &&& pack.compiled_digest == sha256(bytes)
            &&& expected_compiled is Some ==> sha256(bytes) == expected_compiled->0
            &&& expected_source is Some ==> pack.source_digest == expected_source->0
            &&& bytes.len() <= 67_108_864
        },
{
}

proof fn lemma_bodies(pack: PackModel, bodies: Seq<RecordBody>, count: nat, at: int)
    requires
        0 <= at < count,
        bodies_fault(pack, bodies, count) is None,
    ensures
        at <= u32::MAX,
        body_fault(pack, at as u32, bodies[at].bytes@, bodies[at].decoded) is None,
        coverage_fault(
            pack,
            at as u32,
            bodies[at].decoded->Ok_0,
            bodies[at].decoded->Ok_0.matcher.program@.len(),
        ) is None,
    decreases count,
{
    if at < count - 1 {
        lemma_bodies(pack, bodies, (count - 1) as nat, at);
    }
}

proof fn lemma_coverage(pack: PackModel, index: u32, rule: Rule, count: nat, at: int)
    requires
        0 <= at < count,
        coverage_fault(pack, index, rule, count) is None,
    ensures
        listed_candidates(pack.programs, rule.matcher.program@[at]@).contains(index),
    decreases count,
{
    if at < count - 1 {
        lemma_coverage(pack, index, rule, (count - 1) as nat, at);
    }
}

/// In a verified pack every record has the digest that the index gives it, and holds a valid rule
/// with the id that the index gives it. The index lists the rule for each of its programs.
pub proof fn lemma_verified_records_are_intact(
    pack: PackModel,
    bodies: Seq<RecordBody>,
    at: int,
    program: int,
)
    requires
        bodies_fault(pack, bodies, pack.rules.len()) is None,
        0 <= at < pack.rules.len(),
    ensures
        sha256(bodies[at].bytes@) == pack.rules[at].digest,
        bodies[at].decoded is Ok,
        bodies[at].decoded->Ok_0.id@ == pack.rules[at].id,
        rule_fault(bodies[at].decoded->Ok_0) is None,
        0 <= program < bodies[at].decoded->Ok_0.matcher.program@.len() ==> listed_candidates(
            pack.programs,
            bodies[at].decoded->Ok_0.matcher.program@[program]@,
        ).contains(at as u32),
{
    lemma_bodies(pack, bodies, pack.rules.len(), at);
    let rule = bodies[at].decoded->Ok_0;
    if 0 <= program < rule.matcher.program@.len() {
        lemma_coverage(pack, at as u32, rule, rule.matcher.program@.len(), program);
    }
}

/// A file of a pack is used where it could be read, holds at most 64 KiB, and holds a rule.
pub proof fn lemma_used_files(
    manifest: Seq<u8>,
    paths: Seq<String>,
    files: Seq<Result<SourceFile, String>>,
    count: nat,
    at: int,
)
    requires
        0 <= at < count,
        files_fault(manifest, paths, files, count) is None,
    ensures
        files[at] is Ok,
        files[at]->Ok_0.body@.len() <= 65_536,
        files[at]->Ok_0.decoded is Ok,
    decreases count,
{
    if at < count - 1 {
        lemma_used_files(manifest, paths, files, (count - 1) as nat, at);
    }
}

} // verus!
