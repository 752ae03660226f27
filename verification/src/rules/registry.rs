//! The packs that rules are selected from.
use vstd::prelude::*;

use super::{
    PackReference, PackRequest, ReferenceModel, SelectedModel, SelectedRule, SelectedRuleData,
    Selection, resolve, resolved, selected_models,
};
use crate::digest::sha256;
use crate::order::{
    comes_before, insert_ordered, is_before, lemma_members_of_push, lemma_ordered_set, ordered_set,
    same_members, strictly_ascending,
};
use crate::rule_pack::compiled::{CompiledPack, PackModel, body_fault, listed_candidates};

use crate::rule_pack::model::{Rule, RuleModel};
use crate::rule_pack::verification::RecordBody;
use crate::text::{join2, same_text, texts};

verus! {

/// The pack that every registry holds.
#[derive(Debug)]
pub struct BuiltinPack {
    pub id: String,
    pub source_digest: [u8; 32],
    pub rules: Vec<Rule>,
}

impl BuiltinPack {
    /// The pack has a rule with an id.
    pub open spec fn has_rule(&self, id: Seq<char>) -> bool {
        exists|i: int| 0 <= i < self.rules@.len() && (#[trigger] self.rules@[i]).id@ == id
    }
}

/// An opened pack with the bytes of its records.
#[derive(Debug)]
pub struct OpenedPack {
    pub pack: CompiledPack,
    pub bodies: Vec<RecordBody>,
}

/// An external pack of a registry.
#[derive(Debug)]
pub struct ExternalPack {
    pub pack: CompiledPack,
    pub bodies: Vec<RecordBody>,
    pub disabled: bool,
    pub recheck_digest_after_selection: bool,
}

/// The packs that rules are selected from.
#[derive(Debug)]
pub struct Registry {
    pub builtin: BuiltinPack,
    pub external: Vec<ExternalPack>,
    pub references: Vec<PackReference>,
    pub diagnostics: Vec<String>,
}

/// A rule and the pack that it belongs to.
#[derive(Clone, Debug)]
pub struct RuleSummary {
    pub pack_id: String,
    pub rule: Rule,
}

/// The contents of a [`RuleSummary`].
#[verifier::ext_equal]
pub struct SummaryModel {
    pub pack_id: Seq<char>,
    pub rule: RuleModel,
}

impl View for RuleSummary {
    type V = SummaryModel;

    open spec fn view(&self) -> SummaryModel {
        SummaryModel { pack_id: self.pack_id@, rule: self.rule@ }
    }
}

/// What the external packs of a registry hold.
pub open spec fn pack_models(external: Seq<ExternalPack>) -> Seq<PackModel> {
    external.map_values(|candidate: ExternalPack| candidate.pack@)
}

/// Another pack has the id of pack `i`.
pub open spec fn pack_repeats(packs: Seq<PackModel>, i: int) -> bool {
    exists|j: int| 0 <= j < packs.len() && j != i && (#[trigger] packs[j]).id == packs[i].id
}

/// Rule `b` of pack `j` has an id.
pub open spec fn rule_named(packs: Seq<PackModel>, j: int, b: int, id: Seq<char>) -> bool {
    packs[j].rules[b].id == id
}

/// Another rule of the packs has the id of rule `a` of pack `i`.
pub open spec fn rule_repeats(packs: Seq<PackModel>, i: int, a: int) -> bool {
    exists|j: int, b: int|
        0 <= j < packs.len() && 0 <= b < packs[j].rules.len() && (j != i || b != a)
            && #[trigger] rule_named(packs, j, b, packs[i].rules[a].id)
}

/// The id of rule `a` of pack `i` belongs to another rule too.
pub open spec fn is_contested(builtin: BuiltinPack, packs: Seq<PackModel>, i: int, a: int) -> bool {
    builtin.has_rule(packs[i].rules[a].id) || rule_repeats(packs, i, a)
}

/// The ids of pack `i` conflict with those of another pack.
pub open spec fn is_disabled(builtin: BuiltinPack, packs: Seq<PackModel>, i: int) -> bool {
    ||| packs[i].id == builtin.id@
    ||| pack_repeats(packs, i)
    ||| exists|a: int|
        0 <= a < packs[i].rules.len() && #[trigger] is_contested(builtin, packs, i, a)
}

/// What is said about the first `count` rules of pack `i`.
pub open spec fn rule_messages(
    builtin: BuiltinPack,
    packs: Seq<PackModel>,
    i: int,
    count: nat,
) -> Seq<Seq<char>>
    decreases count,
{
    if count == 0 {
        Seq::empty()
    } else {
        let earlier = rule_messages(builtin, packs, i, (count - 1) as nat);
        let id = packs[i].rules[count - 1].id;
        if builtin.has_rule(id) {
            earlier.push("external rule conflicts with a built-in rule: "@ + id)
        } else if rule_repeats(packs, i, count - 1) {
            earlier.push("duplicate external rule id disables its packs: "@ + id)
        } else {
            earlier
        }
    }
}

/// What is said about the id of pack `i`.
pub open spec fn id_messages(builtin: BuiltinPack, packs: Seq<PackModel>, i: int) -> Seq<
    Seq<char>,
> {
    let id = packs[i].id;
    let conflict = if id == builtin.id@ {
        seq!["external pack id conflicts with the built-in pack: "@ + id]
    } else {
        Seq::empty()
    };
    if pack_repeats(packs, i) {
        conflict.push("duplicate external pack id disables all copies: "@ + id)
    } else {
        conflict
    }
}

/// What is said about the first `count` packs.
pub open spec fn conflict_messages(
    builtin: BuiltinPack,
    packs: Seq<PackModel>,
    count: nat,
) -> Seq<Seq<char>>
    decreases count,
{
    if count == 0 {
        Seq::empty()
    } else {
        conflict_messages(builtin, packs, (count - 1) as nat) + id_messages(
            builtin,
            packs,
            count - 1,
        ) + rule_messages(builtin, packs, count - 1, packs[count - 1].rules.len())
    }
}

/// Which of the first `count` packs are the first with their path.
pub open spec fn kept_packs(opened: Seq<OpenedPack>, count: nat) -> Seq<int>
    decreases count,
{
    if count == 0 {
        Seq::empty()
    } else {
        let earlier = kept_packs(opened, (count - 1) as nat);
        if exists|k: int|
            0 <= k < earlier.len() && opened[#[trigger] earlier[k]].pack.path@ == opened[count
                - 1].pack.path@ {
            earlier
        } else {
            earlier.push(count - 1)
        }
    }
}

/// One of the first `count` requests for a path expects a digest of the compiled pack.
pub open spec fn expects_compiled(
    requests: Seq<PackRequest>,
    opened: Seq<OpenedPack>,
    path: Seq<char>,
    count: int,
) -> bool {
    exists|j: int|
        0 <= j < count && (#[trigger] opened[j]).pack.path@ == path
            && requests[j].expected_compiled_digest is Some
}

impl OpenedPack {
    /// There is one body for each record.
    pub open spec fn well_formed(&self) -> bool {
        self.bodies@.len() == self.pack.rules@.len()
    }
}

impl Registry {
    /// Every external pack has one body for each of its records.
    pub open spec fn well_formed(&self) -> bool {
        forall|i: int|
            0 <= i < self.external@.len() ==> (#[trigger] self.external@[i]).bodies@.len()
                == self.external@[i].pack.rules@.len()
    }
}

fn has_builtin_rule(builtin: &BuiltinPack, id: &str) -> (found: bool)
    ensures
        found == builtin.has_rule(id@),
{
    let mut i: usize = 0;
    while i < builtin.rules.len()
        invariant
            i <= builtin.rules.len(),
            forall|j: int| 0 <= j < i ==> (#[trigger] builtin.rules@[j]).id@ != id@,
        decreases builtin.rules.len() - i,
    {
        if same_text(builtin.rules[i].id.as_str(), id) {
            return true;
        }
        i += 1;
    }
    false
}

fn repeats_pack(external: &Vec<ExternalPack>, index: usize) -> (found: bool)
    requires
        index < external@.len(),
    ensures
        found == pack_repeats(pack_models(external@), index as int),
{
    let ghost packs = pack_models(external@);
    let mut j: usize = 0;
    while j < external.len()
        invariant
            j <= external.len(),
            index < external@.len(),
            packs == pack_models(external@),
            forall|k: int|
                0 <= k < j && k != index ==> (#[trigger] packs[k]).id != packs[index as int].id,
        decreases external.len() - j,
    {
        assert(packs[j as int] == external@[j as int].pack@);
        assert(packs[index as int] == external@[index as int].pack@);
        if j != index && same_text(external[j].pack.id.as_str(), external[index].pack.id.as_str()) {
            return true;
        }
        j += 1;
    }
    false
}

#[verifier::loop_isolation(false)]
fn repeats_rule(external: &Vec<ExternalPack>, index: usize, rule: usize) -> (found: bool)
    requires
        index < external@.len(),
        rule < external@[index as int].pack.rules@.len(),
    ensures
        found == rule_repeats(pack_models(external@), index as int, rule as int),
{
    let ghost packs = pack_models(external@);
    assert(packs[index as int] == external@[index as int].pack@);
    assert(packs[index as int].rules[rule as int]
        == external@[index as int].pack.rules@[rule as int]@);
    let id = external[index].pack.rules[rule].id.as_str();
    let mut j: usize = 0;
    while j < external.len()
        invariant
            j <= external.len(),
            forall|k: int, b: int|
                0 <= k < j && 0 <= b < packs[k].rules.len() && (k != index || b != rule)
                    ==> !#[trigger] rule_named(packs, k, b, id@),
        decreases external.len() - j,
    {
        assert(packs[j as int] == external@[j as int].pack@);
        let mut b: usize = 0;
        while b < external[j].pack.rules.len()
            invariant
                j < external.len(),
                b <= external@[j as int].pack.rules@.len(),
                forall|c: int|
                    0 <= c < b && (j != index || c != rule) ==> !#[trigger] rule_named(
                        packs,
                        j as int,
                        c,
                        id@,
                    ),
            decreases external@[j as int].pack.rules@.len() - b,
        {
            assert(packs[j as int].rules[b as int]
                == external@[j as int].pack.rules@[b as int]@);
            if (j != index || b != rule) && same_text(
                external[j].pack.rules[b].id.as_str(),
                id,
            ) {
                assert(rule_named(
                    packs,
                    j as int,
                    b as int,
                    packs[index as int].rules[rule as int].id,
                ));
                return true;
            }
            b += 1;
        }
        j += 1;
    }
    false
}

/// What is said about pack `i` and its first `count` rules, after what `earlier` holds.
spec fn messages_upto(
    builtin: BuiltinPack,
    packs: Seq<PackModel>,
    earlier: Seq<Seq<char>>,
    i: int,
    count: nat,
) -> Seq<Seq<char>> {
    earlier + id_messages(builtin, packs, i) + rule_messages(builtin, packs, i, count)
}

/// Add what is said about one pack, and tell whether it is disabled.
#[verifier::loop_isolation(false)]
fn judge_pack(
    builtin: &BuiltinPack,
    external: &Vec<ExternalPack>,
    index: usize,
    messages: &mut Vec<String>,
) -> (disabled: bool)
    requires
        index < external@.len(),
        strictly_ascending(texts(old(messages)@)),
        same_members(
            texts(old(messages)@),
            conflict_messages(*builtin, pack_models(external@), index as nat),
        ),
    ensures
        disabled == is_disabled(*builtin, pack_models(external@), index as int),
        strictly_ascending(texts(final(messages)@)),
        same_members(
            texts(final(messages)@),
            conflict_messages(*builtin, pack_models(external@), index as nat + 1),
        ),
{
    let ghost packs = pack_models(external@);
    let ghost earlier = conflict_messages(*builtin, packs, index as nat);
    let ghost mut listed = earlier;
    assert(packs[index as int] == external@[index as int].pack@);
    let pack = &external[index].pack;
    let mut disabled = false;
    if same_text(pack.id.as_str(), builtin.id.as_str()) {
        let message = join2(
            "external pack id conflicts with the built-in pack: ",
            pack.id.as_str(),
        );
        proof {
            lemma_members_of_push(listed, message@);
            listed = listed.push(message@);
        }
        insert_ordered(messages, message);
        disabled = true;
    }
    if repeats_pack(external, index) {
        let message = join2("duplicate external pack id disables all copies: ", pack.id.as_str());
        proof {
            lemma_members_of_push(listed, message@);
            listed = listed.push(message@);
        }
        insert_ordered(messages, message);
        disabled = true;
    }
    assert(listed =~= messages_upto(*builtin, packs, earlier, index as int, 0));
    let ghost by_id = disabled;
    let mut a: usize = 0;
    while a < pack.rules.len()
        invariant
            a <= pack.rules.len(),
            strictly_ascending(texts(messages@)),
            same_members(texts(messages@), listed),
            listed == messages_upto(*builtin, packs, earlier, index as int, a as nat),
            disabled == (by_id || exists|b: int|
                0 <= b < a && #[trigger] is_contested(*builtin, packs, index as int, b)),
        decreases pack.rules.len() - a,
    {
        assert(packs[index as int].rules[a as int] == pack.rules@[a as int]@);
        let id = pack.rules[a].id.as_str();
        let ghost before = listed;
        if has_builtin_rule(builtin, id) {
            let message = join2("external rule conflicts with a built-in rule: ", id);
            proof {
                lemma_members_of_push(listed, message@);
                listed = listed.push(message@);
                assert(is_contested(*builtin, packs, index as int, a as int));
            }
            insert_ordered(messages, message);
            disabled = true;
        } else if repeats_rule(external, index, a) {
            let message = join2("duplicate external rule id disables its packs: ", id);
            proof {
                lemma_members_of_push(listed, message@);
                listed = listed.push(message@);
                assert(is_contested(*builtin, packs, index as int, a as int));
            }
            insert_ordered(messages, message);
            disabled = true;
        } else {
            assert(!is_contested(*builtin, packs, index as int, a as int));
        }
        assert(listed =~= messages_upto(*builtin, packs, earlier, index as int, a as nat + 1));
        a += 1;
    }
    disabled
}

/// Find the packs whose ids conflict, and what is said about them.
fn find_conflicts(builtin: &BuiltinPack, external: &Vec<ExternalPack>) -> (result: (
    Vec<bool>,
    Vec<String>,
))
    ensures
        result.0@.len() == external@.len(),
        forall|i: int|
            0 <= i < external@.len() ==> #[trigger] result.0@[i] == is_disabled(
                *builtin,
                pack_models(external@),
                i,
            ),
        texts(result.1@) == ordered_set(
            conflict_messages(*builtin, pack_models(external@), external@.len()),
        ),
{
    let ghost packs = pack_models(external@);
    let mut flags: Vec<bool> = Vec::new();
    let mut messages: Vec<String> = Vec::new();
    let mut i: usize = 0;
    while i < external.len()
        invariant
            i <= external.len(),
            packs == pack_models(external@),
            flags@.len() == i,
            forall|j: int|
                0 <= j < i ==> #[trigger] flags@[j] == is_disabled(*builtin, packs, j),
            strictly_ascending(texts(messages@)),
            same_members(texts(messages@), conflict_messages(*builtin, packs, i as nat)),
        decreases external.len() - i,
    {
        let disabled = judge_pack(builtin, external, i, &mut messages);
        flags.push(disabled);
        i += 1;
    }
    proof {
        lemma_ordered_set(
            texts(messages@),
            conflict_messages(*builtin, packs, external@.len()),
        );
    }
    (flags, messages)
}

/// Disable the packs whose ids conflict, and say why.
fn disable_conflicts(builtin: &BuiltinPack, external: &mut Vec<ExternalPack>) -> (messages: Vec<
    String,
>)
    ensures
        texts(messages@) == ordered_set(
            conflict_messages(*builtin, pack_models(old(external)@), old(external)@.len()),
        ),
        final(external)@.len() == old(external)@.len(),
        forall|i: int|
            0 <= i < old(external)@.len() ==> {
                let before = old(external)@[i];
                &&& (#[trigger] final(external)@[i]).pack == before.pack
                &&& final(external)@[i].bodies == before.bodies
                &&& final(external)@[i].recheck_digest_after_selection
                    == before.recheck_digest_after_selection
                &&& final(external)@[i].disabled == (before.disabled || is_disabled(
                    *builtin,
                    pack_models(old(external)@),
                    i,
                ))
            },
{
    let ghost all = external@;
    let (flags, messages) = find_conflicts(builtin, external);
    let mut i: usize = 0;
    while i < external.len()
        invariant
            i <= external.len(),
            external@.len() == all.len(),
            flags@.len() == all.len(),
            forall|j: int|
                0 <= j < all.len() ==> #[trigger] flags@[j] == is_disabled(
                    *builtin,
                    pack_models(all),
                    j,
                ),
            forall|j: int|
                0 <= j < all.len() ==> {
                    &&& (#[trigger] external@[j]).pack == all[j].pack
                    &&& external@[j].bodies == all[j].bodies
                    &&& external@[j].recheck_digest_after_selection
                        == all[j].recheck_digest_after_selection
                    &&& external@[j].disabled == (all[j].disabled || (j < i && flags@[j]))
                },
        decreases external.len() - i,
    {
        if flags[i] {
            external[i].disabled = true;
        }
        i += 1;
    }
    messages
}

fn find_path(external: &Vec<ExternalPack>, path: &str) -> (index: Option<usize>)
    ensures
        match index {
            Some(k) => k < external@.len() && external@[k as int].pack.path@ == path@,
            None => forall|k: int|
                0 <= k < external@.len() ==> (#[trigger] external@[k]).pack.path@ != path@,
        },
{
    let mut i: usize = 0;
    while i < external.len()
        invariant
            i <= external.len(),
            forall|k: int| 0 <= k < i ==> (#[trigger] external@[k]).pack.path@ != path@,
        decreases external.len() - i,
    {
        if same_text(external[i].pack.path.as_str(), path) {
            return Some(i);
        }
        i += 1;
    }
    None
}

/// The external packs that some opened packs make up, before conflicts are looked for.
spec fn gathered(
    external: Seq<ExternalPack>,
    requests: Seq<PackRequest>,
    opened: Seq<OpenedPack>,
    count: nat,
) -> bool {
    let kept = kept_packs(opened, count);
    &&& external.len() == kept.len()
    &&& forall|k: int|
        0 <= k < kept.len() ==> {
            &&& 0 <= #[trigger] kept[k] < count
            &&& external[k].pack == opened[kept[k]].pack
            &&& external[k].bodies == opened[kept[k]].bodies
            &&& !external[k].disabled
            &&& external[k].recheck_digest_after_selection == expects_compiled(
                requests,
                opened,
                external[k].pack.path@,
                count as int,
            )
        }
    &&& forall|a: int, b: int|
        0 <= a < b < external.len() ==> (#[trigger] external[a]).pack.path@ != (
        #[trigger] external[b]).pack.path@
    &&& forall|j: int|
        0 <= j < count ==> exists|k: int|
            0 <= k < external.len() && (#[trigger] external[k]).pack.path@ == (
            #[trigger] opened[j]).pack.path@
}

#[verifier::loop_isolation(false)]
fn gather(requests: &Vec<PackRequest>, opened: Vec<OpenedPack>) -> (external: Vec<ExternalPack>)
    requires
        requests@.len() == opened@.len(),
    ensures
        gathered(external@, requests@, opened@, opened@.len()),
{
    let ghost all = opened@;
    let mut external: Vec<ExternalPack> = Vec::new();
    let mut i: usize = 0;
    for candidate in it: opened
        invariant
            it.seq() == all,
            i == it.index(),
            requests@.len() == all.len(),
            gathered(external@, requests@, all, i as nat),
    {
        assert(candidate == all[i as int]);
        let ghost before = external@;
        let ghost path = candidate.pack.path@;
        let ghost kept = kept_packs(all, i as nat);
        let expects = requests[i].expected_compiled_digest.is_some();
        proof {
            assert forall|other: Seq<char>| other != path implies #[trigger] expects_compiled(
                requests@,
                all,
                other,
                i + 1,
            ) == expects_compiled(requests@, all, other, i as int) by {}
            if expects_compiled(requests@, all, path, i as int) {
                assert(expects_compiled(requests@, all, path, i + 1));
            }
            if expects {
                assert(all[i as int].pack.path@ == path);
                assert(expects_compiled(requests@, all, path, i + 1));
            }
        }
        match find_path(&external, candidate.pack.path.as_str()) {
            Some(k) => {
                proof {
                    assert(all[kept[k as int]].pack.path@ == path);
                    assert(kept_packs(all, i as nat + 1) == kept);
                }
                if expects {
                    external[k].recheck_digest_after_selection = true;
                }
                proof {
                    assert forall|m: int| 0 <= m < external@.len() && m != k implies (
                    #[trigger] external@[m]).pack.path@ != path by {
                        assert(external@[m] == before[m]);
                        if m < k {
                            assert(before[m].pack.path@ != before[k as int].pack.path@);
                        } else {
                            assert(before[k as int].pack.path@ != before[m].pack.path@);
                        }
                    }
                    assert forall|j: int| 0 <= j < i + 1 implies exists|m: int|
                        0 <= m < external@.len() && (#[trigger] external@[m]).pack.path@ == (
                        #[trigger] all[j]).pack.path@ by {
                        if j == i {
                            assert(external@[k as int].pack.path@ == all[j].pack.path@);
                        } else {
                            let m = choose|m: int|
                                0 <= m < before.len() && (#[trigger] before[m]).pack.path@
                                    == all[j].pack.path@;
                            assert(external@[m].pack.path@ == all[j].pack.path@);
                        }
                    }
                }
            },
            None => {
                proof {
                    assert forall|m: int| 0 <= m < kept.len() implies all[#[trigger] kept[m]].pack.path@
                        != path by {
                        assert(before[m].pack.path@ != path);
                    }
                    assert(kept_packs(all, i as nat + 1) == kept.push(i as int));
                    if expects_compiled(requests@, all, path, i as int) {
                        let j = choose|j: int|
                            0 <= j < i && (#[trigger] all[j]).pack.path@ == path
                                && requests@[j].expected_compiled_digest is Some;
                        let m = choose|m: int|
                            0 <= m < before.len() && (#[trigger] before[m]).pack.path@
                                == all[j].pack.path@;
                        assert(before[m].pack.path@ != path);
                    }
                }
                external.push(
                    ExternalPack {
                        pack: candidate.pack,
                        bodies: candidate.bodies,
                        disabled: false,
                        recheck_digest_after_selection: expects,
                    },
                );
                proof {
                    assert forall|j: int| 0 <= j < i + 1 implies exists|m: int|
                        0 <= m < external@.len() && (#[trigger] external@[m]).pack.path@ == (
                        #[trigger] all[j]).pack.path@ by {
                        if j == i {
                            assert(external@[external@.len() - 1].pack.path@ == all[j].pack.path@);
                        } else {
                            let m = choose|m: int|
                                0 <= m < before.len() && (#[trigger] before[m]).pack.path@
                                    == all[j].pack.path@;
                            assert(external@[m].pack.path@ == all[j].pack.path@);
                        }
                    }
                    let now = kept_packs(all, i as nat + 1);
                    assert forall|m: int| 0 <= m < now.len() implies {
                        &&& 0 <= #[trigger] now[m] < i + 1
                        &&& external@[m].pack == all[now[m]].pack
                        &&& external@[m].bodies == all[now[m]].bodies
                        &&& !external@[m].disabled
                        &&& external@[m].recheck_digest_after_selection == expects_compiled(
                            requests@,
                            all,
                            external@[m].pack.path@,
                            i + 1,
                        )
                    } by {
                        if m < kept.len() {
                            assert(kept[m] == now[m]);
                            assert(before[m] == external@[m]);
                            assert(before[m].pack.path@ != path);
                        }
                    }
                }
            },
        }
        assert(i < requests.len());
        i += 1;
    }
    external
}

/// The references of some external packs.
pub open spec fn reference_models(references: Seq<PackReference>) -> Seq<ReferenceModel> {
    references.map_values(|reference: PackReference| reference@)
}

/// What is kept of a pack to refer to it.
pub open spec fn reference_of(pack: PackModel) -> ReferenceModel {
    ReferenceModel {
        path: pack.path,
        source_digest: pack.source_digest,
        compiled_digest: pack.compiled_digest,
    }
}

/// The built-in rules out of the first `count` that apply to a command line.
pub open spec fn builtin_matches(
    builtin: BuiltinPack,
    arguments: Seq<Seq<char>>,
    count: nat,
) -> Seq<SelectedModel>
    decreases count,
{
    if count == 0 {
        Seq::empty()
    } else {
        let earlier = builtin_matches(builtin, arguments, (count - 1) as nat);
        let rule = builtin.rules@[count - 1];
        if rule.matcher.covers(arguments) {
            earlier.push(
                SelectedModel {
                    pack_id: builtin.id@,
                    source_digest: builtin.source_digest@,
                    builtin: true,
                    rule: rule@,
                },
            )
        } else {
            earlier
        }
    }
}

/// The rules out of the first `count` candidates of an external pack that apply to a command line.
pub open spec fn candidate_matches(
    external: ExternalPack,
    arguments: Seq<Seq<char>>,
    candidates: Seq<u32>,
    count: nat,
) -> Seq<SelectedModel>
    decreases count,
{
    if count == 0 {
        Seq::empty()
    } else {
        let earlier = candidate_matches(external, arguments, candidates, (count - 1) as nat);
        let rule = external.bodies@[candidates[count - 1] as int].decoded->Ok_0;
        if rule.matcher.covers(arguments) {
            earlier.push(
                SelectedModel {
                    pack_id: external.pack.id@,
                    source_digest: external.pack.source_digest@,
                    builtin: false,
                    rule: rule@,
                },
            )
        } else {
            earlier
        }
    }
}

/// What is wrong with the first `count` candidates of an external pack.
pub open spec fn candidate_fault(
    external: ExternalPack,
    candidates: Seq<u32>,
    count: nat,
) -> Option<Seq<char>>
    decreases count,
{
    if count == 0 {
        None
    } else {
        match candidate_fault(external, candidates, (count - 1) as nat) {
            Some(fault) => Some(fault),
            None => {
                let body = external.bodies@[candidates[count - 1] as int];
                body_fault(external.pack@, candidates[count - 1], body.bytes@, body.decoded)
            },
        }
    }
}

/// What is wrong with an external pack after its candidates were read.
pub open spec fn recheck_fault(
    external: ExternalPack,
    contents: Result<Vec<u8>, String>,
) -> Option<Seq<char>> {
    if !external.recheck_digest_after_selection {
        None
    } else {
        match contents {
            Err(error) => Some(error@),
            Ok(bytes) => if sha256(bytes@) != external.pack@.compiled_digest {
                Some(external.pack@.path + ": compiled pack changed while loading"@)
            } else {
                None
            },
        }
    }
}

/// The rules of the built-in pack and of the first `count` external packs that apply to a
/// command line.
pub open spec fn all_matches(
    registry: Registry,
    arguments: Seq<Seq<char>>,
    count: nat,
) -> Seq<SelectedModel>
    decreases count,
{
    if count == 0 {
        builtin_matches(registry.builtin, arguments, registry.builtin.rules@.len())
    } else {
        let earlier = all_matches(registry, arguments, (count - 1) as nat);
        let external = registry.external@[count - 1];
        let candidates = listed_candidates(external.pack@.programs, arguments[0]);
        if external.disabled {
            earlier
        } else {
            earlier + candidate_matches(external, arguments, candidates, candidates.len())
        }
    }
}

/// What is wrong with the first `count` external packs when a rule is selected.
pub open spec fn selection_fault(
    registry: Registry,
    program: Seq<char>,
    contents: Seq<Result<Vec<u8>, String>>,
    count: nat,
) -> Option<Seq<char>>
    decreases count,
{
    if count == 0 {
        None
    } else {
        match selection_fault(registry, program, contents, (count - 1) as nat) {
            Some(fault) => Some(fault),
            None => {
                let external = registry.external@[count - 1];
                let candidates = listed_candidates(external.pack@.programs, program);
                if external.disabled {
                    None
                } else {
                    match candidate_fault(external, candidates, candidates.len()) {
                        Some(fault) => Some(fault),
                        None => recheck_fault(external, contents[count - 1]),
                    }
                }
            },
        }
    }
}

proof fn lemma_candidate_fault_stays(
    external: ExternalPack,
    candidates: Seq<u32>,
    count: nat,
    total: nat,
)
    requires
        count <= total,
        candidate_fault(external, candidates, count) is Some,
    ensures
        candidate_fault(external, candidates, total) == candidate_fault(
            external,
            candidates,
            count,
        ),
    decreases total,
{
    if count < total {
        lemma_candidate_fault_stays(external, candidates, count, (total - 1) as nat);
    }
}

proof fn lemma_selection_fault_stays(
    registry: Registry,
    program: Seq<char>,
    contents: Seq<Result<Vec<u8>, String>>,
    count: nat,
    total: nat,
)
    requires
        count <= total,
        selection_fault(registry, program, contents, count) is Some,
    ensures
        selection_fault(registry, program, contents, total) == selection_fault(
            registry,
            program,
            contents,
            count,
        ),
    decreases total,
{
    if count < total {
        lemma_selection_fault_stays(registry, program, contents, count, (total - 1) as nat);
    }
}

/// Add the candidates of an external pack that apply to a command line.
#[verifier::loop_isolation(false)]
fn match_candidates(
    external: &ExternalPack,
    arguments: &[String],
    matches: &mut Vec<SelectedRule>,
) -> (result: Result<(), String>)
    requires
        arguments@.len() > 0,
        external.bodies@.len() == external.pack.rules@.len(),
    ensures
        ({
            let words = texts(arguments@);
            let candidates = listed_candidates(external.pack@.programs, words[0]);
            match candidate_fault(*external, candidates, candidates.len()) {
                Some(fault) => result matches Err(error) && error@ == fault,
                None => result is Ok && selected_models(final(matches)@) == selected_models(
                    old(matches)@,
                ) + candidate_matches(*external, words, candidates, candidates.len()),
            }
        }),
{
    let ghost words = texts(arguments@);
    assert(words[0] == arguments@[0]@);
    let candidates: &[u32] = external.pack.candidate_indices(arguments[0].as_str());
    let ghost start = selected_models(matches@);
    let mut i: usize = 0;
    assert(selected_models(matches@) =~= start + candidate_matches(
        *external,
        words,
        candidates@,
        0,
    ));
    while i < candidates.len()
        invariant
            i <= candidates.len(),
            candidate_fault(*external, candidates@, i as nat) is None,
            selected_models(matches@) == start + candidate_matches(
                *external,
                words,
                candidates@,
                i as nat,
            ),
        decreases candidates.len() - i,
    {
        let candidate: u32 = candidates[i];
        if let Err(error) = external.pack.record_bounds(candidate) {
            proof {
                lemma_candidate_fault_stays(
                    *external,
                    candidates@,
                    i as nat + 1,
                    candidates@.len(),
                );
            }
            return Err(error);
        }
        let body = &external.bodies[candidate as usize];
        if let Err(error) = external.pack.check_record(
            candidate,
            body.bytes.as_slice(),
            &body.decoded,
        ) {
            proof {
                lemma_candidate_fault_stays(
                    *external,
                    candidates@,
                    i as nat + 1,
                    candidates@.len(),
                );
            }
            return Err(error);
        }
        let ghost before = matches@;
        if let Ok(rule) = &body.decoded {
            if rule.matcher.matches(arguments) {
                let selected = SelectedRule {
                    pack_id: external.pack.id.clone(),
                    source_digest: external.pack.source_digest,
                    rule: SelectedRuleData::External(rule.duplicate()),
                };
                matches.push(selected);
                assert(selected_models(matches@) =~= selected_models(before).push(selected@));
            }
        }
        assert(selected_models(matches@) =~= start + candidate_matches(
            *external,
            words,
            candidates@,
            i as nat + 1,
        ));
        i += 1;
    }
    Ok(())
}

fn match_builtins(builtin: &BuiltinPack, arguments: &[String]) -> (matches: Vec<SelectedRule>)
    ensures
        selected_models(matches@) == builtin_matches(
            *builtin,
            texts(arguments@),
            builtin.rules@.len(),
        ),
{
    let ghost words = texts(arguments@);
    let mut matches: Vec<SelectedRule> = Vec::new();
    let mut i: usize = 0;
    assert(selected_models(matches@) =~= builtin_matches(*builtin, words, 0));
    while i < builtin.rules.len()
        invariant
            i <= builtin.rules.len(),
            words == texts(arguments@),
            selected_models(matches@) == builtin_matches(*builtin, words, i as nat),
        decreases builtin.rules.len() - i,
    {
        let rule = &builtin.rules[i];
        let ghost before = matches@;
        if rule.matcher.matches(arguments) {
            let selected = SelectedRule {
                pack_id: builtin.id.clone(),
                source_digest: builtin.source_digest,
                rule: SelectedRuleData::Builtin(rule.duplicate()),
            };
            matches.push(selected);
            assert(selected_models(matches@) =~= selected_models(before).push(selected@));
        }
        i += 1;
    }
    matches
}

impl Registry {
    /// Gather opened packs, one for each request, and disable those whose ids conflict. Of the
    /// packs with one path only the first is kept.
    pub fn load(
        builtin: BuiltinPack,
        requests: &Vec<PackRequest>,
        opened: Vec<OpenedPack>,
    ) -> (registry: Registry)
        requires
            requests@.len() == opened@.len(),
            forall|i: int| 0 <= i < opened@.len() ==> (#[trigger] opened@[i]).well_formed(),
        ensures
            registry.well_formed(),
            registry.builtin == builtin,
            ({
                let kept = kept_packs(opened@, opened@.len());
                let packs = pack_models(registry.external@);
                &&& registry.external@.len() == kept.len()
                &&& forall|k: int|
                    0 <= k < kept.len() ==> {
                        let external = #[trigger] registry.external@[k];
                        &&& external.pack == opened@[kept[k]].pack
                        &&& external.bodies == opened@[kept[k]].bodies
                        &&& external.disabled == is_disabled(builtin, packs, k)
                        &&& external.recheck_digest_after_selection == expects_compiled(
                            requests@,
                            opened@,
                            external.pack.path@,
                            opened@.len() as int,
                        )
                    }
                &&& reference_models(registry.references@) == packs.map_values(
                    |pack: PackModel| reference_of(pack),
                )
                &&& texts(registry.diagnostics@) == ordered_set(
                    conflict_messages(builtin, packs, packs.len()),
                )
            }),
    {
        let ghost all = opened@;
        let mut external = gather(requests, opened);
        let ghost packs = pack_models(external@);
        let mut references: Vec<PackReference> = Vec::new();
        let mut i: usize = 0;
        let ghost expected = packs.map_values(|pack: PackModel| reference_of(pack));
        assert(reference_models(references@) =~= expected.take(0));
        while i < external.len()
            invariant
                i <= external.len(),
                packs == pack_models(external@),
                expected == packs.map_values(|pack: PackModel| reference_of(pack)),
                reference_models(references@) == expected.take(i as int),
            decreases external.len() - i,
        {
            let pack = &external[i].pack;
            assert(packs[i as int] == pack@);
            let reference = PackReference {
                path: pack.path.clone(),
                source_digest: pack.source_digest,
                compiled_digest: pack.compiled_digest,
            };
            let ghost before = reference_models(references@);
            references.push(reference);
            assert(reference_models(references@) =~= before.push(reference@));
            assert(expected.take(i + 1) =~= before.push(reference@));
            i += 1;
        }
        assert(expected.take(expected.len() as int) =~= expected);
        let diagnostics = disable_conflicts(&builtin, &mut external);
        proof {
            assert(pack_models(external@) =~= packs);
            let kept = kept_packs(all, all.len());
            assert forall|k: int| 0 <= k < external@.len() implies (
            #[trigger] external@[k]).bodies@.len() == external@[k].pack.rules@.len() by {
                assert(0 <= kept[k] < all.len());
                assert(all[kept[k]].well_formed());
            }
            assert forall|k: int| 0 <= k < kept.len() implies {
                let candidate = #[trigger] external@[k];
                &&& candidate.pack == all[kept[k]].pack
                &&& candidate.bodies == all[kept[k]].bodies
                &&& candidate.disabled == is_disabled(builtin, packs, k)
                &&& candidate.recheck_digest_after_selection == expects_compiled(
                    requests@,
                    all,
                    candidate.pack.path@,
                    all.len() as int,
                )
            } by {
                assert(0 <= kept[k] < all.len());
            }
        }
        Registry { builtin, external, references, diagnostics }
    }

    /// A registry without external packs.
    #[must_use]
    pub fn builtins_only(builtin: BuiltinPack) -> (registry: Registry)
        ensures
            registry.well_formed(),
            registry.builtin == builtin,
            registry.external@.len() == 0,
            registry.references@.len() == 0,
            registry.diagnostics@.len() == 0,
    {
        Registry {
            builtin,
            external: Vec::new(),
            references: Vec::new(),
            diagnostics: Vec::new(),
        }
    }

    /// Select what happens to the output of a command line. `contents` holds the file of each
    /// external pack as it is now.
    ///
    /// # Errors
    ///
    /// Returns an error when a candidate of an external pack is corrupt or invalid, or when the
    /// file of a pack that is checked again has changed.
    pub fn select(&self, arguments: &[String], contents: &Vec<Result<Vec<u8>, String>>) -> (result:
        Result<Selection, String>)
        requires
            self.well_formed(),
            contents@.len() == self.external@.len(),
        ensures
            ({
                let words = texts(arguments@);
                let count = self.external@.len();
                if words.len() == 0 {
                    result == Ok::<Selection, String>(Selection::Unsupported)
                } else {
                    match selection_fault(*self, words[0], contents@, count) {
                        Some(fault) => result matches Err(error) && error@ == fault,
                        None => result matches Ok(selection) && selection@ == resolved(
                            all_matches(*self, words, count),
                        ),
                    }
                }
            }),
    {
        if arguments.len() == 0 {
            return Ok(Selection::Unsupported);
        }
        let ghost words = texts(arguments@);
        let ghost count = self.external@.len();
        let mut matches = match_builtins(&self.builtin, arguments);
        let mut i: usize = 0;
        while i < self.external.len()
            invariant
                i <= self.external.len(),
                self.well_formed(),
                contents@.len() == self.external@.len(),
                count == self.external@.len(),
                arguments@.len() > 0,
                words == texts(arguments@),
                selection_fault(*self, words[0], contents@, i as nat) is None,
                selected_models(matches@) == all_matches(*self, words, i as nat),
            decreases self.external.len() - i,
        {
            let external = &self.external[i];
            if !external.disabled {
                if let Err(error) = match_candidates(external, arguments, &mut matches) {
                    proof {
                        lemma_selection_fault_stays(
                            *self,
                            words[0],
                            contents@,
                            i as nat + 1,
                            count,
                        );
                    }
                    return Err(error);
                }
                if external.recheck_digest_after_selection {
                    match &contents[i] {
                        Err(error) => {
                            proof {
                                lemma_selection_fault_stays(
                                    *self,
                                    words[0],
                                    contents@,
                                    i as nat + 1,
                                    count,
                                );
                            }
                            return Err(error.clone());
                        },
                        Ok(bytes) => {
                            if let Err(error) = external.pack.verify_compiled_digest(
                                bytes.as_slice(),
                            ) {
                                proof {
                                    lemma_selection_fault_stays(
                                        *self,
                                        words[0],
                                        contents@,
                                        i as nat + 1,
                                        count,
                                    );
                                }
                                return Err(error);
                            }
                        },
                    }
                }
            }
            i += 1;
        }
        Ok(resolve(matches))
    }

    /// The packs that were loaded.
    #[must_use]
    pub fn references(&self) -> (references: &[PackReference])
        ensures
            references@ == self.references@,
    {
        self.references.as_slice()
    }

    /// Why packs are disabled.
    #[must_use]
    pub fn diagnostics(&self) -> (diagnostics: &[String])
        ensures
            diagnostics@ == self.diagnostics@,
    {
        self.diagnostics.as_slice()
    }
}

/// A summary stands before another one: by its pack, then by its rule.
pub open spec fn stands_before(left: SummaryModel, right: SummaryModel) -> bool {
    comes_before(left.pack_id, right.pack_id) || (left.pack_id == right.pack_id && comes_before(
        left.rule.id,
        right.rule.id,
    ))
}

/// The first position from `from` on that a summary stands before.
pub open spec fn place(list: Seq<SummaryModel>, summary: SummaryModel, from: int) -> int
    decreases list.len() - from,
{
    if from < 0 || from >= list.len() || stands_before(summary, list[from]) {
        from
    } else {
        place(list, summary, from + 1)
    }
}

/// The first `count` summaries in order; those that stand before neither keep their order.
pub open spec fn in_order(list: Seq<SummaryModel>, count: nat) -> Seq<SummaryModel>
    decreases count,
{
    if count == 0 {
        Seq::empty()
    } else {
        let earlier = in_order(list, (count - 1) as nat);
        earlier.insert(place(earlier, list[count - 1], 0), list[count - 1])
    }
}

/// The summaries of some rules.
pub open spec fn summary_models(summaries: Seq<RuleSummary>) -> Seq<SummaryModel> {
    summaries.map_values(|summary: RuleSummary| summary@)
}

/// The summaries of the built-in rules.
pub open spec fn builtin_summaries(builtin: BuiltinPack) -> Seq<SummaryModel> {
    builtin.rules@.map_values(|rule: Rule| SummaryModel { pack_id: builtin.id@, rule: rule@ })
}

/// The summaries of the rules of an external pack.
pub open spec fn pack_summaries(external: ExternalPack) -> Seq<SummaryModel> {
    external.bodies@.map_values(
        |body: RecordBody|
            SummaryModel { pack_id: external.pack.id@, rule: body.decoded->Ok_0@ },
    )
}

/// The summaries of the built-in rules and of the first `count` external packs.
pub open spec fn all_summaries(registry: Registry, count: nat) -> Seq<SummaryModel>
    decreases count,
{
    if count == 0 {
        builtin_summaries(registry.builtin)
    } else {
        let earlier = all_summaries(registry, (count - 1) as nat);
        if registry.external@[count - 1].disabled {
            earlier
        } else {
            earlier + pack_summaries(registry.external@[count - 1])
        }
    }
}

/// What is wrong with the first `count` records of an external pack.
pub open spec fn record_fault(external: ExternalPack, count: nat) -> Option<Seq<char>>
    decreases count,
{
    if count == 0 {
        None
    } else {
        match record_fault(external, (count - 1) as nat) {
            Some(fault) => Some(fault),
            None => if count - 1 > u32::MAX {
                Some("external rule index does not fit u32"@)
            } else {
                let body = external.bodies@[count - 1];
                body_fault(external.pack@, (count - 1) as u32, body.bytes@, body.decoded)
            },
        }
    }
}

/// What is wrong with the records of the first `count` external packs that are enabled.
pub open spec fn summary_fault(registry: Registry, count: nat) -> Option<Seq<char>>
    decreases count,
{
    if count == 0 {
        None
    } else {
        match summary_fault(registry, (count - 1) as nat) {
            Some(fault) => Some(fault),
            None => {
                let external = registry.external@[count - 1];
                if external.disabled {
                    None
                } else {
                    record_fault(external, external.bodies@.len())
                }
            },
        }
    }
}

proof fn lemma_record_fault_stays(external: ExternalPack, count: nat, total: nat)
    requires
        count <= total,
        record_fault(external, count) is Some,
    ensures
        record_fault(external, total) == record_fault(external, count),
    decreases total,
{
    if count < total {
        lemma_record_fault_stays(external, count, (total - 1) as nat);
    }
}

proof fn lemma_summary_fault_stays(registry: Registry, count: nat, total: nat)
    requires
        count <= total,
        summary_fault(registry, count) is Some,
    ensures
        summary_fault(registry, total) == summary_fault(registry, count),
    decreases total,
{
    if count < total {
        lemma_summary_fault_stays(registry, count, (total - 1) as nat);
    }
}

fn summary_before(left: &RuleSummary, right: &RuleSummary) -> (found: bool)
    ensures
        found == stands_before(left@, right@),
{
    is_before(left.pack_id.as_str(), right.pack_id.as_str()) || (same_text(
        left.pack_id.as_str(),
        right.pack_id.as_str(),
    ) && is_before(left.rule.id.as_str(), right.rule.id.as_str()))
}

fn insert_summary(list: &mut Vec<RuleSummary>, summary: RuleSummary)
    ensures
        summary_models(final(list)@) == summary_models(old(list)@).insert(
            place(summary_models(old(list)@), summary@, 0),
            summary@,
        ),
{
    let ghost models = summary_models(list@);
    let mut i: usize = 0;
    while i < list.len() && !summary_before(&summary, &list[i])
        invariant
            i <= list.len(),
            models == summary_models(list@),
            place(models, summary@, 0) == place(models, summary@, i as int),
        decreases list.len() - i,
    {
        assert(models[i as int] == list@[i as int]@);
        i += 1;
    }
    proof {
        if i < list@.len() {
            assert(models[i as int] == list@[i as int]@);
        }
    }
    list.insert(i, summary);
    assert(summary_models(list@) =~= models.insert(i as int, summary@));
}

#[verifier::loop_isolation(false)]
fn sort_summaries(list: Vec<RuleSummary>) -> (result: Vec<RuleSummary>)
    ensures
        summary_models(result@) == in_order(summary_models(list@), list@.len()),
{
    let ghost models = summary_models(list@);
    let mut result: Vec<RuleSummary> = Vec::new();
    assert(summary_models(result@) =~= in_order(models, 0));
    for summary in it: list
        invariant
            it.seq() == list@,
            models == summary_models(list@),
            summary_models(result@) == in_order(models, it.index() as nat),
    {
        assert(models[it.index() as int] == summary@);
        insert_summary(&mut result, summary);
    }
    result
}

#[verifier::loop_isolation(false)]
fn append_summaries(external: &ExternalPack, list: &mut Vec<RuleSummary>) -> (result: Result<
    (),
    String,
>)
    requires
        external.bodies@.len() == external.pack.rules@.len(),
    ensures
        match record_fault(*external, external.bodies@.len()) {
            Some(fault) => result matches Err(error) && error@ == fault,
            None => result is Ok && summary_models(final(list)@) == summary_models(old(list)@)
                + pack_summaries(*external),
        },
{
    let ghost start = summary_models(list@);
    let ghost own = pack_summaries(*external);
    let ghost total = external.bodies@.len();
    let mut i: usize = 0;
    assert(summary_models(list@) =~= start + own.take(0));
    while i < external.bodies.len()
        invariant
            i <= external.bodies.len(),
            record_fault(*external, i as nat) is None,
            summary_models(list@) == start + own.take(i as int),
        decreases external.bodies.len() - i,
    {
        if i > 0xffff_ffff {
            proof {
                lemma_record_fault_stays(*external, i as nat + 1, total);
            }
            return Err("external rule index does not fit u32".to_owned());
        }
        let body = &external.bodies[i];
        if let Err(error) = external.pack.check_record(
            i as u32,
            body.bytes.as_slice(),
            &body.decoded,
        ) {
            proof {
                lemma_record_fault_stays(*external, i as nat + 1, total);
            }
            return Err(error);
        }
        if let Ok(rule) = &body.decoded {
            let summary = RuleSummary {
                pack_id: external.pack.id.clone(),
                rule: rule.duplicate(),
            };
            let ghost before = summary_models(list@);
            assert(summary@ == own[i as int]);
            list.push(summary);
            assert(summary_models(list@) =~= before.push(summary@));
            assert(own.take(i + 1) =~= own.take(i as int).push(own[i as int]));
            assert(summary_models(list@) =~= start + own.take(i + 1));
        }
        i += 1;
    }
    assert(own.take(own.len() as int) =~= own);
    Ok(())
}

fn list_builtins(builtin: &BuiltinPack) -> (list: Vec<RuleSummary>)
    ensures
        summary_models(list@) == builtin_summaries(*builtin),
{
    let ghost expected = builtin_summaries(*builtin);
    let mut list: Vec<RuleSummary> = Vec::new();
    let mut i: usize = 0;
    assert(summary_models(list@) =~= expected.take(0));
    while i < builtin.rules.len()
        invariant
            i <= builtin.rules.len(),
            expected == builtin_summaries(*builtin),
            summary_models(list@) == expected.take(i as int),
        decreases builtin.rules.len() - i,
    {
        let summary = RuleSummary {
            pack_id: builtin.id.clone(),
            rule: builtin.rules[i].duplicate(),
        };
        let ghost before = summary_models(list@);
        assert(summary@ == expected[i as int]);
        list.push(summary);
        assert(summary_models(list@) =~= before.push(summary@));
        assert(expected.take(i + 1) =~= before.push(summary@));
        i += 1;
    }
    assert(expected.take(expected.len() as int) =~= expected);
    list
}

impl Registry {
    /// The summaries of all built-in rules and of the rules of all enabled external packs, by
    /// pack and by rule.
    ///
    /// # Errors
    ///
    /// Returns an error when a record of an enabled external pack is corrupt or invalid.
    pub fn summaries(&self) -> (result: Result<Vec<RuleSummary>, String>)
        requires
            self.well_formed(),
        ensures
            ({
                let count = self.external@.len();
                let list = all_summaries(*self, count);
                match summary_fault(*self, count) {
                    Some(fault) => result matches Err(error) && error@ == fault,
                    None => result matches Ok(summaries) && summary_models(summaries@) == in_order(
                        list,
                        list.len(),
                    ),
                }
            }),
    {
        let mut list = list_builtins(&self.builtin);
        let mut i: usize = 0;
        while i < self.external.len()
            invariant
                i <= self.external.len(),
                self.well_formed(),
                summary_fault(*self, i as nat) is None,
                summary_models(list@) == all_summaries(*self, i as nat),
            decreases self.external.len() - i,
        {
            let external = &self.external[i];
            if !external.disabled {
                if let Err(error) = append_summaries(external, &mut list) {
                    proof {
                        lemma_summary_fault_stays(*self, i as nat + 1, self.external@.len());
                    }
                    return Err(error);
                }
            }
            i += 1;
        }
        assert(list@.len() == summary_models(list@).len());
        Ok(sort_summaries(list))
    }
}

} // verus!
