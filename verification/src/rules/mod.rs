//! The rules that apply to a command line, out of the built-in pack and of external packs.
use vstd::prelude::*;

use crate::order::{sort_texts, sorted};
use crate::rule_pack::model::{Action, Rule, RuleModel};
use crate::text::{join3, list_contains, texts};

pub mod laws;
pub mod pack_laws;
pub mod projects;
pub mod registry;

pub use crate::digest::{digest_hex, parse_digest};
pub use registry::{BuiltinPack, ExternalPack, OpenedPack, Registry, RuleSummary};

verus! {

/// A pack that is to be loaded.
#[derive(Clone, Debug)]
pub struct PackRequest {
    pub path: String,
    pub expected_digest: Option<[u8; 32]>,
    pub expected_compiled_digest: Option<[u8; 32]>,
}

/// A pack that was loaded.
#[derive(Clone, Debug)]
pub struct PackReference {
    pub path: String,
    pub source_digest: [u8; 32],
    pub compiled_digest: [u8; 32],
}

/// The contents of a [`PackReference`].
#[verifier::ext_equal]
pub struct ReferenceModel {
    pub path: Seq<char>,
    pub source_digest: Seq<u8>,
    pub compiled_digest: Seq<u8>,
}

impl View for PackReference {
    type V = ReferenceModel;

    open spec fn view(&self) -> ReferenceModel {
        ReferenceModel {
            path: self.path@,
            source_digest: self.source_digest@,
            compiled_digest: self.compiled_digest@,
        }
    }
}

/// Where a selected rule comes from.
#[derive(Clone, Debug)]
pub enum SelectedRuleData {
    Builtin(Rule),
    External(Rule),
}

impl SelectedRuleData {
    /// The rule itself.
    pub open spec fn selected(&self) -> Rule {
        match self {
            SelectedRuleData::Builtin(rule) => *rule,
            SelectedRuleData::External(rule) => *rule,
        }
    }

    /// The rule itself.
    pub fn rule(&self) -> (rule: &Rule)
        ensures
            *rule == self.selected(),
    {
        match self {
            SelectedRuleData::Builtin(rule) => rule,
            SelectedRuleData::External(rule) => rule,
        }
    }
}

/// A rule that applies to a command line.
#[derive(Clone, Debug)]
pub struct SelectedRule {
    pub pack_id: String,
    pub source_digest: [u8; 32],
    pub rule: SelectedRuleData,
}

/// The contents of a [`SelectedRule`].
#[verifier::ext_equal]
pub struct SelectedModel {
    pub pack_id: Seq<char>,
    pub source_digest: Seq<u8>,
    pub builtin: bool,
    pub rule: RuleModel,
}

impl View for SelectedRule {
    type V = SelectedModel;

    open spec fn view(&self) -> SelectedModel {
        SelectedModel {
            pack_id: self.pack_id@,
            source_digest: self.source_digest@,
            builtin: self.rule is Builtin,
            rule: self.rule.selected()@,
        }
    }
}

impl SelectedModel {
    /// The id of the rule with the id of its pack.
    pub open spec fn qualified_id(self) -> Seq<char> {
        self.pack_id + "/"@ + self.rule.id
    }
}

/// What happens to the output of a command line.
#[derive(Clone, Debug)]
pub enum Selection {
    Reduce(SelectedRule),
    Transform(SelectedRule),
    Passthrough(Vec<String>),
    Ambiguous(Vec<String>),
    Unsupported,
}

/// The contents of a [`Selection`].
#[verifier::ext_equal]
pub enum SelectionModel {
    Reduce(SelectedModel),
    Transform(SelectedModel),
    Passthrough(Seq<Seq<char>>),
    Ambiguous(Seq<Seq<char>>),
    Unsupported,
}

impl View for Selection {
    type V = SelectionModel;

    open spec fn view(&self) -> SelectionModel {
        match self {
            Selection::Reduce(selected) => SelectionModel::Reduce(selected@),
            Selection::Transform(selected) => SelectionModel::Transform(selected@),
            Selection::Passthrough(ids) => SelectionModel::Passthrough(texts(ids@)),
            Selection::Ambiguous(ids) => SelectionModel::Ambiguous(texts(ids@)),
            Selection::Unsupported => SelectionModel::Unsupported,
        }
    }
}

/// The contents of some selected rules.
pub open spec fn selected_models(matches: Seq<SelectedRule>) -> Seq<SelectedModel> {
    matches.map_values(|selected: SelectedRule| selected@)
}

/// The ids of the first `count` matches, either of those that pass output through or of the others.
pub open spec fn match_ids(matches: Seq<SelectedModel>, passthrough: bool, count: nat) -> Seq<
    Seq<char>,
>
    decreases count,
{
    if count == 0 {
        Seq::empty()
    } else {
        let earlier = match_ids(matches, passthrough, (count - 1) as nat);
        if (matches[count - 1].rule.action == Action::Passthrough) == passthrough {
            earlier.push(matches[count - 1].qualified_id())
        } else {
            earlier
        }
    }
}

/// The first match from `from` on that changes output.
pub open spec fn first_change(matches: Seq<SelectedModel>, from: int) -> Option<int>
    decreases matches.len() - from,
{
    if from < 0 || from >= matches.len() {
        None
    } else if matches[from].rule.action != Action::Passthrough {
        Some(from)
    } else {
        first_change(matches, from + 1)
    }
}

/// What the rules that match a command line amount to: a rule that passes output through wins
/// over all others, and a single other rule over none.
pub open spec fn resolved(matches: Seq<SelectedModel>) -> SelectionModel {
    let guards = match_ids(matches, true, matches.len());
    let changes = match_ids(matches, false, matches.len());
    if guards.len() > 0 {
        SelectionModel::Passthrough(sorted(guards))
    } else if changes.len() > 1 {
        SelectionModel::Ambiguous(sorted(changes))
    } else {
        match first_change(matches, 0) {
            None => SelectionModel::Unsupported,
            Some(index) => if matches[index].rule.action == Action::Transform {
                SelectionModel::Transform(matches[index])
            } else {
                SelectionModel::Reduce(matches[index])
            },
        }
    }
}

fn qualified_id(selected: &SelectedRule) -> (id: String)
    ensures
        id@ == selected@.qualified_id(),
{
    join3(selected.pack_id.as_str(), "/", selected.rule.rule().id.as_str())
}

fn collect_ids(matches: &Vec<SelectedRule>, passthrough: bool) -> (ids: Vec<String>)
    ensures
        texts(ids@) == match_ids(selected_models(matches@), passthrough, matches@.len()),
{
    let ghost models = selected_models(matches@);
    let mut ids: Vec<String> = Vec::new();
    let mut i: usize = 0;
    assert(texts(ids@) =~= Seq::<Seq<char>>::empty());
    while i < matches.len()
        invariant
            i <= matches.len(),
            models == selected_models(matches@),
            texts(ids@) == match_ids(models, passthrough, i as nat),
        decreases matches.len() - i,
    {
        assert(models[i as int] == matches@[i as int]@);
        if (matches[i].rule.rule().action == Action::Passthrough) == passthrough {
            let ghost before = texts(ids@);
            let id = qualified_id(&matches[i]);
            ids.push(id);
            assert(texts(ids@) =~= before.push(id@));
        }
        i += 1;
    }
    ids
}

proof fn lemma_no_change(matches: Seq<SelectedModel>, from: int)
    requires
        0 <= from <= matches.len(),
        first_change(matches, from) is None,
    ensures
        forall|i: int|
            from <= i < matches.len() ==> (#[trigger] matches[i]).rule.action
                == Action::Passthrough,
    decreases matches.len() - from,
{
    if from < matches.len() {
        lemma_no_change(matches, from + 1);
    }
}

/// Decide what the rules that match a command line amount to.
pub fn resolve(matches: Vec<SelectedRule>) -> (selection: Selection)
    ensures
        selection@ == resolved(selected_models(matches@)),
{
    let ghost models = selected_models(matches@);
    let guards = collect_ids(&matches, true);
    if guards.len() > 0 {
        return Selection::Passthrough(sort_texts(&guards));
    }
    let changes = collect_ids(&matches, false);
    assert(texts(changes@).len() == changes@.len());
    if changes.len() > 1 {
        return Selection::Ambiguous(sort_texts(&changes));
    }
    for selected in it: matches
        invariant
            it.seq() == matches@,
            models == selected_models(matches@),
            first_change(models, 0) == first_change(models, it.index() as int),
            resolved(models) == match first_change(models, 0) {
                None => SelectionModel::Unsupported,
                Some(index) => if models[index].rule.action == Action::Transform {
                    SelectionModel::Transform(models[index])
                } else {
                    SelectionModel::Reduce(models[index])
                },
            },
    {
        assert(models[it.index() as int] == selected@);
        match selected.rule.rule().action {
            Action::Passthrough => {},
            Action::Transform => {
                return Selection::Transform(selected);
            },
            Action::Reduce => {
                return Selection::Reduce(selected);
            },
        }
    }
    Selection::Unsupported
}

/// A rule that passes output through wins over every other rule that matches a command line.
pub proof fn lemma_guard_wins(matches: Seq<SelectedModel>, index: int)
    requires
        0 <= index < matches.len(),
        matches[index].rule.action == Action::Passthrough,
    ensures
        resolved(matches) is Passthrough,
        match_ids(matches, true, matches.len()).contains(matches[index].qualified_id()),
{
    lemma_match_listed(matches, true, matches.len(), index);
}

proof fn lemma_match_listed(
    matches: Seq<SelectedModel>,
    passthrough: bool,
    count: nat,
    index: int,
)
    requires
        0 <= index < count <= matches.len(),
        (matches[index].rule.action == Action::Passthrough) == passthrough,
    ensures
        match_ids(matches, passthrough, count).contains(matches[index].qualified_id()),
    decreases count,
{
    let ids = match_ids(matches, passthrough, count);
    let id = matches[index].qualified_id();
    if index == count - 1 {
        assert(ids[ids.len() - 1] == id);
    } else {
        lemma_match_listed(matches, passthrough, (count - 1) as nat, index);
        let earlier = match_ids(matches, passthrough, (count - 1) as nat);
        let k = earlier.index_of(id);
        assert(ids[k] == id);
    }
}

/// What is asked for at some paths.
pub open spec fn requests_for(paths: Seq<String>) -> Seq<PackRequest> {
    paths.map_values(
        |path: String|
            PackRequest { path, expected_digest: None, expected_compiled_digest: None },
    )
}

/// Request the packs at some paths, whatever their digests.
#[must_use]
pub fn requests_from_paths(paths: &[String]) -> (requests: Vec<PackRequest>)
    ensures
        requests@ == requests_for(paths@),
{
    let mut requests: Vec<PackRequest> = Vec::new();
    let mut i: usize = 0;
    while i < paths.len()
        invariant
            i <= paths.len(),
            requests@ =~= requests_for(paths@).take(i as int),
        decreases paths.len() - i,
    {
        requests.push(
            PackRequest {
                path: paths[i].clone(),
                expected_digest: None,
                expected_compiled_digest: None,
            },
        );
        i += 1;
    }
    assert(requests_for(paths@).take(paths@.len() as int) =~= requests_for(paths@));
    requests
}

/// Request the packs of a path list that an environment variable holds.
///
/// # Errors
///
/// Returns an error when the list is empty or has an empty entry.
pub fn requests_from_list(paths: &[String]) -> (result: Result<Vec<PackRequest>, String>)
    ensures
        if paths@.len() == 0 || texts(paths@).contains(Seq::empty()) {
            result matches Err(error) && error@ == "YARP_RULE_PACKS contains an empty path"@
        } else {
            result matches Ok(requests) && requests@ == requests_for(paths@)
        },
{
    proof {
        reveal_strlit("");
        assert(""@ =~= Seq::<char>::empty());
    }
    if paths.len() == 0 || list_contains(paths, "") {
        return Err("YARP_RULE_PACKS contains an empty path".to_owned());
    }
    Ok(requests_from_paths(paths))
}

} // verus!
