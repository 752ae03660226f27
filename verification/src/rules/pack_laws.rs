//! What holds of external packs: which are used, what is found in them, and where they may lie.
use vstd::prelude::*;

use super::projects::{components, is_below, is_component, kept, parts, project_pack_fault};
use super::registry::{
    BuiltinPack, ExternalPack, OpenedPack, Registry, SummaryModel, all_matches, builtin_matches,
    candidate_matches, in_order, is_disabled, kept_packs, place, recheck_fault, reference_of,
    stands_before,
};
use crate::digest::sha256;
use crate::order::{lemma_irreflexive, lemma_total, lemma_transitive};
use crate::rule_pack::compiled::{PackModel, listed_candidates};

verus! {

/// A pack whose id and whose rule ids nobody else has is used.
pub proof fn lemma_packs_without_conflicts_are_used(
    builtin: BuiltinPack,
    packs: Seq<PackModel>,
    i: int,
)
    requires
        0 <= i < packs.len(),
        packs[i].id != builtin.id@,
        forall|j: int| 0 <= j < packs.len() && j != i ==> (#[trigger] packs[j]).id != packs[i].id,
        forall|a: int, b: int|
            0 <= a < packs[i].rules.len() && 0 <= b < builtin.rules@.len()
                ==> #[trigger] packs[i].rules[a].id != (#[trigger] builtin.rules@[b]).id@,
        forall|a: int, j: int, b: int|
            0 <= a < packs[i].rules.len() && 0 <= j < packs.len() && 0 <= b < packs[j].rules.len()
                && (j != i || b != a) ==> #[trigger] packs[i].rules[a].id
                != #[trigger] packs[j].rules[b].id,
    ensures
        !is_disabled(builtin, packs, i),
{
    if is_disabled(builtin, packs, i) {
        let a = choose|a: int|
            0 <= a < packs[i].rules.len() && #[trigger] super::registry::is_contested(
                builtin,
                packs,
                i,
                a,
            );
        assert(!builtin.has_rule(packs[i].rules[a].id));
        assert(!super::registry::rule_repeats(packs, i, a));
    }
}

/// What applies out of some candidates is each time a rule of the pack that covers the command.
pub proof fn lemma_matches_of_a_pack(
    external: ExternalPack,
    arguments: Seq<Seq<char>>,
    candidates: Seq<u32>,
    count: nat,
)
    ensures
        ({
            let found = candidate_matches(external, arguments, candidates, count);
            &&& forall|i: int|
                0 <= i < found.len() ==> {
                    &&& (#[trigger] found[i]).pack_id == external.pack.id@
                    &&& found[i].source_digest == external.pack.source_digest@
                    &&& !found[i].builtin
                    &&& found[i].rule.matcher.covers(arguments)
                }
            &&& forall|k: int|
                0 <= k < count && external.bodies@[#[trigger] candidates[k] as
                int].decoded->Ok_0.matcher.covers(arguments) ==> exists|i: int|
                    0 <= i < found.len() && (#[trigger] found[i]).rule
                        == external.bodies@[candidates[k] as int].decoded->Ok_0@
        }),
    decreases count,
{
    if count > 0 {
        let before = (count - 1) as nat;
        lemma_matches_of_a_pack(external, arguments, candidates, before);
        let earlier = candidate_matches(external, arguments, candidates, before);
        let found = candidate_matches(external, arguments, candidates, count);
        assert forall|i: int| 0 <= i < earlier.len() implies #[trigger] found[i] == earlier[i] by {}
        assert forall|k: int|
            0 <= k < count && external.bodies@[#[trigger] candidates[k] as
            int].decoded->Ok_0.matcher.covers(arguments) implies exists|i: int|
            0 <= i < found.len() && (#[trigger] found[i]).rule == external.bodies@[candidates[k] as
            int].decoded->Ok_0@ by {
            if k < before {
                let i = choose|i: int|
                    0 <= i < earlier.len() && (#[trigger] earlier[i]).rule
                        == external.bodies@[candidates[k] as int].decoded->Ok_0@;
                assert(found[i] == earlier[i]);
            } else {
                assert(found[found.len() - 1].rule == external.bodies@[candidates[k] as
                int].decoded->Ok_0@);
            }
        }
    }
}

/// The matches of the built-in pack come first, then those of each external pack in turn. A pack
/// that is disabled gives none.
pub proof fn lemma_packs_are_asked_in_turn(
    registry: Registry,
    arguments: Seq<Seq<char>>,
    count: nat,
)
    ensures
        all_matches(registry, arguments, 0) == builtin_matches(
            registry.builtin,
            arguments,
            registry.builtin.rules@.len(),
        ),
        registry.external@[count as int].disabled ==> all_matches(registry, arguments, count + 1)
            == all_matches(registry, arguments, count),
        !registry.external@[count as int].disabled ==> ({
            let external = registry.external@[count as int];
            let candidates = listed_candidates(external.pack@.programs, arguments[0]);
            all_matches(registry, arguments, count + 1) == all_matches(registry, arguments, count)
                + candidate_matches(external, arguments, candidates, candidates.len())
        }),
{
}

/// A pack that is checked again after a rule was selected must still have the bytes that were
/// loaded. What refers to a pack carries its path and both of its digests.
pub proof fn lemma_changed_packs_are_noticed(
    external: ExternalPack,
    contents: Result<Vec<u8>, String>,
)
    ensures
        external.recheck_digest_after_selection && recheck_fault(external, contents) is None
            ==> contents is Ok && sha256(contents->Ok_0@) == external.pack@.compiled_digest,
        external.recheck_digest_after_selection && contents is Ok && sha256(contents->Ok_0@)
            == external.pack@.compiled_digest ==> recheck_fault(external, contents) is None,
        reference_of(external.pack@).path == external.pack@.path,
        reference_of(external.pack@).source_digest == external.pack@.source_digest,
        reference_of(external.pack@).compiled_digest == external.pack@.compiled_digest,
{
}

/// The pack, or one before it with the same path, was chosen.
pub open spec fn is_represented(packs: Seq<OpenedPack>, chosen: Seq<int>, i: int) -> bool {
    exists|k: int|
        0 <= k < chosen.len() && #[trigger] chosen[k] <= i && packs[chosen[k]].pack.path@
            == packs[i].pack.path@
}

/// Of packs with one path the first is kept, and every path is kept once.
pub proof fn lemma_one_pack_for_each_path(packs: Seq<OpenedPack>, count: nat)
    requires
        count <= packs.len(),
    ensures
        ({
            let chosen = kept_packs(packs, count);
            &&& forall|k: int| 0 <= k < chosen.len() ==> 0 <= #[trigger] chosen[k] < count
            &&& forall|k: int, l: int|
                0 <= k < l < chosen.len() ==> packs[#[trigger] chosen[k]].pack.path@
                    != packs[#[trigger] chosen[l]].pack.path@
            &&& forall|k: int, l: int|
                0 <= k < l < chosen.len() ==> #[trigger] chosen[k] < #[trigger] chosen[l]
            &&& forall|i: int| 0 <= i < count ==> #[trigger] is_represented(packs, chosen, i)
        }),
    decreases count,
{
    if count > 0 {
        let before = (count - 1) as nat;
        lemma_one_pack_for_each_path(packs, before);
        let earlier = kept_packs(packs, before);
        let chosen = kept_packs(packs, count);
        assert forall|k: int| 0 <= k < earlier.len() implies #[trigger] chosen[k] == earlier[k] by {}
        assert forall|k: int, l: int| 0 <= k < l < chosen.len() implies packs[#[trigger] chosen[k]].pack.path@
            != packs[#[trigger] chosen[l]].pack.path@ && chosen[k] < chosen[l] by {
            assert(chosen[k] == earlier[k]);
            if l < earlier.len() {
                assert(packs[earlier[k]].pack.path@ != packs[earlier[l]].pack.path@);
                assert(earlier[k] < earlier[l]);
            }
        }
        assert forall|i: int| 0 <= i < count implies #[trigger] is_represented(
            packs,
            chosen,
            i,
        ) by {
            if i < before {
                assert(is_represented(packs, earlier, i));
                let k = choose|k: int|
                    0 <= k < earlier.len() && #[trigger] earlier[k] <= i
                        && packs[earlier[k]].pack.path@ == packs[i].pack.path@;
                assert(chosen[k] == earlier[k]);
            } else if chosen.len() > earlier.len() {
                assert(chosen[chosen.len() - 1] == i);
            } else {
                let k = choose|k: int|
                    0 <= k < earlier.len() && packs[#[trigger] earlier[k]].pack.path@
                        == packs[i].pack.path@;
                assert(chosen[k] == earlier[k]);
            }
        }
    }
}

proof fn lemma_some_parts(path: Seq<char>)
    ensures
        parts(path).len() > 0,
    decreases path.len(),
{
    if path.len() > 0 {
        lemma_some_parts(path.drop_last());
    }
}

proof fn lemma_parts_join(before: Seq<char>, after: Seq<char>)
    ensures
        parts(before + seq!['/'] + after) == parts(before) + parts(after),
    decreases after.len(),
{
    let whole = before + seq!['/'] + after;
    lemma_some_parts(after);
    if after.len() == 0 {
        assert(whole.drop_last() =~= before);
        assert(whole.last() == '/');
        assert(parts(whole) =~= parts(before) + parts(after));
    } else {
        let rest = after.drop_last();
        assert(whole.drop_last() =~= before + seq!['/'] + rest);
        assert(whole.last() == after.last());
        lemma_parts_join(before, rest);
        lemma_some_parts(rest);
        assert(parts(whole) =~= parts(before) + parts(after));
    }
}

proof fn lemma_name_is_one_part(name: Seq<char>)
    requires
        !name.contains('/'),
    ensures
        parts(name) == seq![name],
    decreases name.len(),
{
    if name.len() == 0 {
        assert(name =~= Seq::empty());
    } else {
        let rest = name.drop_last();
        assert forall|i: int| 0 <= i < rest.len() implies rest[i] != '/' by {
            assert(rest[i] == name[i]);
            assert(name.contains(name[i]));
        }
        assert(name.contains(name.last()));
        lemma_name_is_one_part(rest);
        assert(rest.push(name.last()) =~= name);
        assert(parts(name) =~= seq![name]);
    }
}

proof fn lemma_kept_begins_alike(first: Seq<Seq<char>>, second: Seq<Seq<char>>, count: nat)
    requires
        count <= second.len(),
    ensures
        kept(first + second, first.len()) == kept(first, first.len()),
        kept(first, first.len()).is_prefix_of(kept(first + second, first.len() + count)),
    decreases count,
{
    if count == 0 {
        lemma_kept_of_front(first, second, first.len());
    } else {
        lemma_kept_begins_alike(first, second, (count - 1) as nat);
    }
}

proof fn lemma_kept_of_front(first: Seq<Seq<char>>, second: Seq<Seq<char>>, count: nat)
    requires
        count <= first.len(),
    ensures
        kept(first + second, count) == kept(first, count),
    decreases count,
{
    if count > 0 {
        lemma_kept_of_front(first, second, (count - 1) as nat);
        assert((first + second)[count - 1] == first[count - 1]);
    }
}

/// A path that goes on from a directory lies below it, and every directory lies below itself.
pub proof fn lemma_longer_paths_lie_below(directory: Seq<char>, rest: Seq<char>)
    requires
        directory.len() > 0,
    ensures
        is_below(directory + seq!['/'] + rest, directory),
        is_below(directory, directory),
{
    let whole = directory + seq!['/'] + rest;
    lemma_parts_join(directory, rest);
    lemma_kept_begins_alike(parts(directory), parts(rest), parts(rest).len());
    assert(whole[0] == directory[0]);
    let short = kept(parts(directory), parts(directory).len());
    let long = kept(parts(whole), parts(whole).len());
    assert(short.is_prefix_of(long));
    if directory[0] == '/' {
        assert((seq![seq!['/']] + short).is_prefix_of(seq![seq!['/']] + long));
    }
}

/// A name that only begins like another one is no directory of it: of two different names in one
/// directory, neither lies below the other.
pub proof fn lemma_other_names_do_not_lie_below(
    directory: Seq<char>,
    name: Seq<char>,
    other: Seq<char>,
)
    requires
        directory.len() > 0,
        !name.contains('/'),
        !other.contains('/'),
        name.len() > 0 && name != seq!['.'],
        other.len() > 0 && other != seq!['.'],
        name != other,
    ensures
        !is_below(directory + seq!['/'] + other, directory + seq!['/'] + name),
{
    let left = directory + seq!['/'] + name;
    let right = directory + seq!['/'] + other;
    lemma_parts_join(directory, name);
    lemma_parts_join(directory, other);
    lemma_name_is_one_part(name);
    lemma_name_is_one_part(other);
    lemma_some_parts(directory);
    let common = parts(directory);
    let before = kept(common, common.len());
    lemma_kept_of_front(common, seq![name], common.len());
    lemma_kept_of_front(common, seq![other], common.len());
    assert(is_component(name, false) && is_component(other, false));
    assert(kept(parts(left), parts(left).len()) == before.push(name));
    assert(kept(parts(right), parts(right).len()) == before.push(other));
    assert(left[0] == directory[0] && right[0] == directory[0]);
    if is_below(right, left) {
        let first = components(left);
        let second = components(right);
        assert(first.len() == second.len());
        assert(first.last() == name && second.last() == other);
        assert(first =~= second.subrange(0, first.len() as int));
        assert(first[first.len() - 1] == second[first.len() - 1]);
    }
}

/// A pack of a project is accepted where no link leads to it, it is a file, and it lies below the
/// root of the project.
pub proof fn lemma_accepted_project_packs(
    has_link: bool,
    is_file: bool,
    path: Seq<char>,
    root: Seq<char>,
)
    ensures
        project_pack_fault(has_link, is_file, path, root) is None <==> !has_link && is_file
            && is_below(path, root),
{
}

proof fn lemma_order_of_summaries(first: SummaryModel, second: SummaryModel, third: SummaryModel)
    ensures
        stands_before(first, second) && stands_before(second, third) ==> stands_before(
            first,
            third,
        ),
        stands_before(first, second) ==> !stands_before(second, first),
        !stands_before(first, second) && !stands_before(second, third) ==> !stands_before(
            first,
            third,
        ),
{
    lemma_names(first.pack_id, second.pack_id, third.pack_id);
    lemma_names(first.rule.id, second.rule.id, third.rule.id);
}

proof fn lemma_names(first: Seq<char>, second: Seq<char>, third: Seq<char>)
    ensures
        crate::order::comes_before(first, second) && crate::order::comes_before(second, third)
            ==> crate::order::comes_before(first, third),
        crate::order::comes_before(first, second) ==> !crate::order::comes_before(second, first),
        !crate::order::comes_before(first, first),
        !crate::order::comes_before(first, second) && !crate::order::comes_before(second, third)
            ==> !crate::order::comes_before(first, third),
        !crate::order::comes_before(first, second) && !crate::order::comes_before(second, first)
            ==> first == second,
        !crate::order::comes_before(second, third) && !crate::order::comes_before(third, second)
            ==> second == third,
        !crate::order::comes_before(first, third) && !crate::order::comes_before(third, first)
            ==> first == third,
{
    lemma_irreflexive(first);
    lemma_irreflexive(second);
    lemma_irreflexive(third);
    lemma_total(first, second);
    lemma_total(second, third);
    lemma_total(first, third);
    if crate::order::comes_before(first, second) && crate::order::comes_before(second, third) {
        lemma_transitive(first, second, third);
    }
    if crate::order::comes_before(first, second) && crate::order::comes_before(second, first) {
        lemma_transitive(first, second, first);
    }
    if crate::order::comes_before(first, third) {
        if crate::order::comes_before(second, first) {
            lemma_transitive(second, first, third);
        }
    }
}

/// No summary stands behind one that it should stand before.
pub open spec fn is_in_order(list: Seq<SummaryModel>) -> bool {
    forall|i: int, j: int|
        0 <= i < j < list.len() ==> !stands_before(#[trigger] list[j], #[trigger] list[i])
}

proof fn lemma_place(list: Seq<SummaryModel>, summary: SummaryModel, from: int)
    requires
        0 <= from <= list.len(),
    ensures
        from <= place(list, summary, from) <= list.len(),
        forall|i: int|
            from <= i < place(list, summary, from) ==> !stands_before(summary, #[trigger] list[i]),
        place(list, summary, from) < list.len() ==> stands_before(
            summary,
            list[place(list, summary, from)],
        ),
    decreases list.len() - from,
{
    if from < list.len() && !stands_before(summary, list[from]) {
        lemma_place(list, summary, from + 1);
    }
}

/// Rules are listed by their packs, then by their ids, and each of them once.
pub proof fn lemma_rules_are_listed_in_order(list: Seq<SummaryModel>, count: nat)
    requires
        count <= list.len(),
    ensures
        is_in_order(in_order(list, count)),
        in_order(list, count).len() == count,
        in_order(list, count).to_multiset() == list.take(count as int).to_multiset(),
    decreases count,
{
    broadcast use vstd::seq_lib::group_to_multiset_ensures;

    if count == 0 {
        assert(list.take(0) =~= Seq::empty());
    } else {
        let before = (count - 1) as nat;
        let earlier = in_order(list, before);
        let summary = list[count - 1];
        let at = place(earlier, summary, 0);
        let after = in_order(list, count);
        lemma_rules_are_listed_in_order(list, before);
        lemma_place(earlier, summary, 0);
        assert(list.take(count as int) =~= list.take(before as int).push(summary));
        assert(after == earlier.insert(at, summary));
        assert forall|i: int, j: int| 0 <= i < j < after.len() implies !stands_before(
            #[trigger] after[j],
            #[trigger] after[i],
        ) by {
            let left = if i < at {
                earlier[i]
            } else if i == at {
                summary
            } else {
                earlier[i - 1]
            };
            let right = if j < at {
                earlier[j]
            } else if j == at {
                summary
            } else {
                earlier[j - 1]
            };
            assert(after[i] == left && after[j] == right);
            if i == at {
                let next = earlier[at];
                assert(stands_before(summary, next));
                lemma_order_of_summaries(summary, next, right);
                lemma_order_of_summaries(right, next, summary);
                lemma_order_of_summaries(right, summary, next);
                lemma_order_of_summaries(summary, right, summary);
                if j - 1 > at {
                    assert(!stands_before(earlier[j - 1], earlier[at]));
                }
            }
        }
        vstd::seq_lib::to_multiset_insert(earlier, at, summary);
    }
}

} // verus!
