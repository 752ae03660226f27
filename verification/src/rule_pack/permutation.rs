//! Compiled packs do not depend on the order in which the rules are given.
use vstd::prelude::*;

use super::compiled::{
    all_programs, candidates_of, compile_fault, compiled, lemma_ids_differ, ordered_bodies,
    program_table, rule_ids, rule_order,
};
use super::model::{Action, PackManifest, Rule};
use super::validation::{
    MAX_RULES, competing_pair, competitor, each_rule_fault, has_rule_id, lemma_no_competing_pair,
    may_overlap, rule_fault, rule_with_matcher, rules_fault, same_matcher,
};
use crate::order::{lemma_ordered_exists, lemma_ordered_set, ordered_set, same_members};
use crate::text::texts;

verus! {

/// A rearrangement of some places: each of them once.
pub open spec fn is_rearrangement(order: Seq<int>, count: nat) -> bool {
    &&& order.len() == count
    &&& forall|k: int| 0 <= k < count ==> 0 <= #[trigger] order[k] < count
    &&& forall|i: int, j: int|
        0 <= i < j < count ==> #[trigger] order[i] != #[trigger] order[j]
}

/// Some values in another order.
pub open spec fn rearranged<T>(values: Seq<T>, order: Seq<int>) -> Seq<T> {
    Seq::new(order.len(), |k: int| values[order[k]])
}

/// Two rules cannot stand in one pack.
spec fn clash(left: Rule, right: Rule) -> bool {
    ||| left.id@ == right.id@
    ||| same_matcher(left.matcher, right.matcher)
    ||| left.action != Action::Passthrough && right.action != Action::Passthrough && may_overlap(
        left.matcher,
        right.matcher,
    )
}

spec fn all_fit(rules: Seq<Rule>) -> bool {
    &&& 0 < rules.len() <= MAX_RULES
    &&& forall|i: int| 0 <= i < rules.len() ==> rule_fault(#[trigger] rules[i]) is None
    &&& forall|i: int, j: int|
        0 <= i < rules.len() && 0 <= j < rules.len() && i != j ==> !clash(
            #[trigger] rules[i],
            #[trigger] rules[j],
        )
}

proof fn lemma_clash_is_mutual(left: Rule, right: Rule)
    ensures
        clash(left, right) == clash(right, left),
{
    if may_overlap(left.matcher, right.matcher) {
        lemma_overlap_is_mutual(left, right);
    } else if may_overlap(right.matcher, left.matcher) {
        lemma_overlap_is_mutual(right, left);
    }
}

proof fn lemma_overlap_is_mutual(left: Rule, right: Rule)
    requires
        may_overlap(left.matcher, right.matcher),
    ensures
        may_overlap(right.matcher, left.matcher),
{
    let i = choose|i: int|
        0 <= i < left.matcher.program@.len() && texts(right.matcher.program@).contains(
            (#[trigger] left.matcher.program@[i])@,
        );
    let j = texts(right.matcher.program@).index_of(left.matcher.program@[i]@);
    assert(right.matcher.program@[j]@ == left.matcher.program@[i]@);
    assert(texts(left.matcher.program@)[i] == right.matcher.program@[j]@);
}

proof fn lemma_no_such_matcher(rules: Seq<Rule>, matcher: super::model::CommandMatcher, from: int)
    requires
        0 <= from,
    ensures
        match rule_with_matcher(rules, matcher, from) {
            Some(index) => from <= index < rules.len() && same_matcher(
                rules[index].matcher,
                matcher,
            ),
            None => forall|i: int|
                from <= i < rules.len() ==> !same_matcher((#[trigger] rules[i]).matcher, matcher),
        },
    decreases rules.len() - from,
{
    if from < rules.len() && !same_matcher(rules[from].matcher, matcher) {
        lemma_no_such_matcher(rules, matcher, from + 1);
    }
}

proof fn lemma_matchers_differ(rules: Seq<Rule>, count: nat, left: int, right: int)
    requires
        count <= rules.len(),
        each_rule_fault(rules, count) is None,
        0 <= left < right < count,
    ensures
        !same_matcher(rules[left].matcher, rules[right].matcher),
    decreases count,
{
    let earlier = rules.take(count - 1);
    if right < count - 1 {
        lemma_matchers_differ(rules, (count - 1) as nat, left, right);
    } else {
        lemma_no_such_matcher(earlier, rules[right].matcher, 0);
        assert(earlier[left] == rules[left]);
    }
}

proof fn lemma_valid_rules_fit(rules: Seq<Rule>)
    requires
        rules_fault(rules) is None,
    ensures
        all_fit(rules),
{
    lemma_ids_differ(rules, rules.len());
    assert forall|i: int, j: int|
        0 <= i < rules.len() && 0 <= j < rules.len() && i != j implies !clash(
        #[trigger] rules[i],
        #[trigger] rules[j],
    ) by {
        let (left, right) = if i < j {
            (i, j)
        } else {
            (j, i)
        };
        lemma_matchers_differ(rules, rules.len(), left, right);
        assert(rules[left].id@ != rules[right].id@);
        if rules[left].action != Action::Passthrough && rules[right].action != Action::Passthrough
            && may_overlap(rules[left].matcher, rules[right].matcher) {
            lemma_no_competing_pair(rules, 0, left, right);
        }
        lemma_clash_is_mutual(rules[left], rules[right]);
    }
}

proof fn lemma_fitting_rules_have_no_fault(rules: Seq<Rule>, count: nat)
    requires
        all_fit(rules),
        count <= rules.len(),
    ensures
        each_rule_fault(rules, count) is None,
    decreases count,
{
    if count > 0 {
        lemma_fitting_rules_have_no_fault(rules, (count - 1) as nat);
        let earlier = rules.take(count - 1);
        let rule = rules[count - 1];
        lemma_no_such_matcher(earlier, rule.matcher, 0);
        if let Some(index) = rule_with_matcher(earlier, rule.matcher, 0) {
            assert(earlier[index] == rules[index]);
            assert(!clash(rules[index], rules[count - 1]));
        }
        if has_rule_id(earlier, rule.id@) {
            let index = choose|i: int|
                0 <= i < earlier.len() && (#[trigger] earlier[i]).id@ == rule.id@;
            assert(earlier[index] == rules[index]);
            assert(!clash(rules[index], rules[count - 1]));
        }
    }
}

proof fn lemma_fitting_rule_has_no_competitor(rules: Seq<Rule>, index: int, from: int)
    requires
        all_fit(rules),
        0 <= index < from,
        index < rules.len(),
        rules[index].action != Action::Passthrough,
    ensures
        competitor(rules, index, from) is None,
    decreases rules.len() - from,
{
    if from < rules.len() {
        assert(!clash(rules[index], rules[from]));
        lemma_fitting_rule_has_no_competitor(rules, index, from + 1);
    }
}

proof fn lemma_fitting_rules_do_not_compete(rules: Seq<Rule>, from: int)
    requires
        all_fit(rules),
        0 <= from,
    ensures
        competing_pair(rules, from) is None,
    decreases rules.len() - from,
{
    if from < rules.len() {
        if rules[from].action != Action::Passthrough {
            lemma_fitting_rule_has_no_competitor(rules, from, from + 1);
        }
        lemma_fitting_rules_do_not_compete(rules, from + 1);
    }
}

proof fn lemma_rearranged_rules_are_valid(rules: Seq<Rule>, order: Seq<int>)
    requires
        rules_fault(rules) is None,
        is_rearrangement(order, rules.len()),
    ensures
        rules_fault(rearranged(rules, order)) is None,
{
    let moved = rearranged(rules, order);
    lemma_valid_rules_fit(rules);
    assert(all_fit(moved)) by {
        assert forall|i: int| 0 <= i < moved.len() implies rule_fault(#[trigger] moved[i]) is None by {
            assert(moved[i] == rules[order[i]]);
        }
        assert forall|i: int, j: int|
            0 <= i < moved.len() && 0 <= j < moved.len() && i != j implies !clash(
            #[trigger] moved[i],
            #[trigger] moved[j],
        ) by {
            assert(moved[i] == rules[order[i]] && moved[j] == rules[order[j]]);
            assert(order[i] != order[j]) by {
                if i < j {
                } else {
                    assert(order[j] != order[i]);
                }
            }
        }
    }
    lemma_fitting_rules_have_no_fault(moved, moved.len());
    lemma_fitting_rules_do_not_compete(moved, 0);
}

/// Each place is the new place of some value.
proof fn lemma_rearrangement_reaches(order: Seq<int>, count: nat, place: int)
    requires
        is_rearrangement(order, count),
        0 <= place < count,
    ensures
        order.contains(place),
{
    let all = vstd::set_lib::set_int_range(0, count as int);
    vstd::set_lib::lemma_int_range(0, count as int);
    assert(order.no_duplicates());
    order.unique_seq_to_set();
    assert(order.to_set().subset_of(all)) by {
        assert forall|x: int| order.to_set().contains(x) implies all.contains(x) by {
            let k = order.index_of(x);
            assert(order[k] == x);
        }
    }
    vstd::set_lib::lemma_subset_equality(order.to_set(), all);
    assert(order.to_set().contains(place));
}

proof fn lemma_ids_stay(rules: Seq<Rule>, order: Seq<int>)
    requires
        is_rearrangement(order, rules.len()),
    ensures
        same_members(rule_ids(rules), rule_ids(rearranged(rules, order))),
{
    let moved = rearranged(rules, order);
    let before = rule_ids(rules);
    let after = rule_ids(moved);
    assert forall|id: Seq<char>| before.contains(id) <==> #[trigger] after.contains(id) by {
        if before.contains(id) {
            let i = before.index_of(id);
            lemma_rearrangement_reaches(order, rules.len(), i);
            let k = order.index_of(i);
            assert(after[k] == before[i]);
        }
        if after.contains(id) {
            let k = after.index_of(id);
            assert(before[order[k]] == after[k]);
        }
    }
}

proof fn lemma_program_members(rules: Seq<Rule>, count: nat, program: Seq<char>)
    requires
        count <= rules.len(),
    ensures
        all_programs(rules, count).contains(program) <==> exists|i: int|
            0 <= i < count && texts((#[trigger] rules[i]).matcher.program@).contains(program),
    decreases count,
{
    if count > 0 {
        let rest = all_programs(rules, (count - 1) as nat);
        let own = texts(rules[count - 1].matcher.program@);
        let all = all_programs(rules, count);
        lemma_program_members(rules, (count - 1) as nat, program);
        if rest.contains(program) {
            assert(all[rest.index_of(program)] == program);
        }
        if own.contains(program) {
            assert(all[rest.len() + own.index_of(program)] == program);
        }
        if all.contains(program) {
            let k = all.index_of(program);
            if k < rest.len() {
                assert(rest[k] == program);
            } else {
                assert(own[k - rest.len()] == program);
            }
        }
    }
}

proof fn lemma_programs_stay(rules: Seq<Rule>, order: Seq<int>)
    requires
        is_rearrangement(order, rules.len()),
    ensures
        same_members(
            all_programs(rules, rules.len()),
            all_programs(rearranged(rules, order), rules.len()),
        ),
{
    let moved = rearranged(rules, order);
    let before = all_programs(rules, rules.len());
    let after = all_programs(moved, rules.len());
    assert forall|program: Seq<char>| before.contains(program) <==> #[trigger] after.contains(
        program,
    ) by {
        lemma_program_members(rules, rules.len(), program);
        lemma_program_members(moved, rules.len(), program);
        if before.contains(program) {
            let i = choose|i: int|
                0 <= i < rules.len() && texts((#[trigger] rules[i]).matcher.program@).contains(
                    program,
                );
            lemma_rearrangement_reaches(order, rules.len(), i);
            let k = order.index_of(i);
            assert(moved[k] == rules[i]);
        }
        if after.contains(program) {
            let k = choose|k: int|
                0 <= k < rules.len() && texts((#[trigger] moved[k]).matcher.program@).contains(
                    program,
                );
            assert(rules[order[k]] == moved[k]);
        }
    }
}

proof fn lemma_same_ordered_set(left: Seq<Seq<char>>, right: Seq<Seq<char>>)
    requires
        same_members(left, right),
    ensures
        ordered_set(left) == ordered_set(right),
{
    lemma_ordered_exists(left);
    let ordered = ordered_set(left);
    assert(same_members(ordered, right)) by {
        assert forall|text: Seq<char>| ordered.contains(text) <==> #[trigger] right.contains(
            text,
        ) by {
            assert(ordered.contains(text) <==> left.contains(text));
        }
    }
    lemma_ordered_set(ordered, right);
}

proof fn lemma_same_rule_at(rules: Seq<Rule>, order: Seq<int>, k: int)
    requires
        rules_fault(rules) is None,
        is_rearrangement(order, rules.len()),
        0 <= k < rule_order(rules).len(),
    ensures
        ({
            let moved = rearranged(rules, order);
            &&& rule_order(moved).len() == rule_order(rules).len()
            &&& 0 <= rule_order(moved)[k] < rules.len()
            &&& order[rule_order(moved)[k]] == rule_order(rules)[k]
        }),
{
    let moved = rearranged(rules, order);
    let before = rule_ids(rules);
    let after = rule_ids(moved);
    lemma_ids_stay(rules, order);
    lemma_same_ordered_set(before, after);
    lemma_ordered_exists(before);
    lemma_valid_rules_fit(rules);
    let names = ordered_set(before);
    let id = names[k];
    assert(names.contains(id));
    assert(before.contains(id));
    assert(after.contains(id));
    let i = before.index_of(id);
    let j = after.index_of(id);
    assert(after[j] == before[order[j]]);
    assert(rules[i].id@ == rules[order[j]].id@);
    if i != order[j] {
        assert(!clash(rules[i], rules[order[j]]));
    }
}

proof fn lemma_same_candidates(
    rules: Seq<Rule>,
    order: Seq<int>,
    program: Seq<char>,
    count: nat,
)
    requires
        rules_fault(rules) is None,
        is_rearrangement(order, rules.len()),
        count <= rule_order(rules).len(),
    ensures
        candidates_of(
            rearranged(rules, order),
            rule_order(rearranged(rules, order)),
            program,
            count,
        ) == candidates_of(rules, rule_order(rules), program, count),
    decreases count,
{
    if count > 0 {
        lemma_same_candidates(rules, order, program, (count - 1) as nat);
        lemma_same_rule_at(rules, order, count - 1);
    }
}

/// Rules given in another order, with their encodings in the same order, are compiled to the same
/// bytes.
pub proof fn lemma_compiling_ignores_rule_order(
    manifest: PackManifest,
    rules: Seq<Rule>,
    bodies: Seq<Result<Seq<u8>, Seq<char>>>,
    source_digest: Seq<u8>,
    order: Seq<int>,
)
    requires
        bodies.len() == rules.len(),
        is_rearrangement(order, rules.len()),
        compile_fault(manifest, rules, bodies) is None,
    ensures
        compile_fault(manifest, rearranged(rules, order), rearranged(bodies, order)) is None,
        compiled(manifest, rearranged(rules, order), rearranged(bodies, order), source_digest)
            == compiled(manifest, rules, bodies, source_digest),
{
    let moved = rearranged(rules, order);
    let moved_bodies = rearranged(bodies, order);
    lemma_rearranged_rules_are_valid(rules, order);
    lemma_ids_stay(rules, order);
    lemma_same_ordered_set(rule_ids(rules), rule_ids(moved));
    lemma_programs_stay(rules, order);
    lemma_same_ordered_set(
        all_programs(rules, rules.len()),
        all_programs(moved, moved.len()),
    );
    lemma_order_len(rules);
    assert(ordered_bodies(moved, moved_bodies) =~= ordered_bodies(rules, bodies)) by {
        assert forall|k: int| 0 <= k < rule_order(rules).len() implies ordered_bodies(
            moved,
            moved_bodies,
        )[k] == ordered_bodies(rules, bodies)[k] by {
            lemma_same_rule_at(rules, order, k);
        }
    }
    assert(program_table(moved) =~= program_table(rules)) by {
        assert forall|i: int| 0 <= i < program_table(rules).len() implies program_table(moved)[i]
            == program_table(rules)[i] by {
            lemma_same_candidates(
                rules,
                order,
                ordered_set(all_programs(rules, rules.len()))[i],
                rules.len(),
            );
        }
    }
}

proof fn lemma_order_len(rules: Seq<Rule>)
    requires
        rules_fault(rules) is None,
    ensures
        rule_order(rules).len() == rules.len(),
{
    let ids = rule_ids(rules);
    lemma_valid_rules_fit(rules);
    lemma_ordered_exists(ids);
    assert forall|i: int, j: int| 0 <= i < j < ids.len() implies #[trigger] ids[i]
        != #[trigger] ids[j] by {
        assert(!clash(rules[i], rules[j]));
    }
    super::compiled::lemma_order_is_complete(ordered_set(ids), ids);
}

} // verus!
