//! Plans for the result of compound commands.
use vstd::prelude::*;

use super::diagnostics::{TransformDiagnostics, TransformPrograms};
use super::transforms::{transform_fault, validate_line_preserving};
use super::words::{
    all_assignments, is_setup, is_setup_command, may_emit, normalize_result_words,
    only_assignments, output_command, pipefail_of, pipefail_setting, setup_may_emit,
};
use crate::bytes::{contains_any_folded, has_any_infix_folded};
use crate::rule_pack::model::{
    LinePattern, OutputPolicy, Reducer, ReducerModel, Rule, RuleModel, Transform,
};
use crate::rule_pack::validation::same_pattern;
use crate::rules::registry::{BuiltinPack, Registry, builtin_matches};
use crate::rules::{
    SelectedModel, SelectedRuleData, Selection, SelectionModel, first_change, resolved,
};
use crate::shell::parser::{ParseModel, is_program, program_of, simple_words};
use crate::shell::{
    Connector, ItemModel, ShellItem, ShellProgram, SimpleCommand, parse, parse_simple_words,
};
use crate::text::{same_text, texts};

verus! {

/// How far the status of a compound command tells whether its output reports a success.
#[derive(Clone, Copy, Debug, PartialEq, Eq, Structural)]
pub enum StatusConfidence {
    Complete,
    FinalStageOnly,
    Conditional,
}

impl StatusConfidence {
    /// How much doubt there is.
    pub open spec fn doubt(self) -> nat {
        match self {
            StatusConfidence::Complete => 0,
            StatusConfidence::FinalStageOnly => 1,
            StatusConfidence::Conditional => 2,
        }
    }

    /// The confidence with more doubt.
    pub open spec fn merged(self, other: StatusConfidence) -> StatusConfidence {
        if self.doubt() >= other.doubt() {
            self
        } else {
            other
        }
    }
}

/// How the result of a compound command is reduced.
#[derive(Clone, Debug)]
pub struct ResultPlan {
    pub rule: Rule,
    pub status_confidence: StatusConfidence,
    pub transform_diagnostics: TransformDiagnostics,
    pub fail_open_setup_diagnostics: bool,
}

/// The contents of a [`ResultPlan`].
#[verifier::ext_equal]
pub struct ResultModel {
    pub rule: RuleModel,
    pub confidence: StatusConfidence,
    pub diagnostics: TransformPrograms,
    pub setup: bool,
}

impl View for ResultPlan {
    type V = ResultModel;

    open spec fn view(&self) -> ResultModel {
        ResultModel {
            rule: self.rule@,
            confidence: self.status_confidence,
            diagnostics: self.transform_diagnostics@,
            setup: self.fail_open_setup_diagnostics,
        }
    }
}

/// The larger number.
pub open spec fn larger(left: usize, right: usize) -> usize {
    if left >= right {
        left
    } else {
        right
    }
}

/// The policy that is at least as generous as both, and as demanding.
pub open spec fn merged_policy(left: OutputPolicy, right: OutputPolicy) -> OutputPolicy {
    OutputPolicy {
        max_line_bytes: larger(left.max_line_bytes, right.max_line_bytes),
        max_output_bytes: larger(left.max_output_bytes, right.max_output_bytes),
        min_savings_bytes: larger(left.min_savings_bytes, right.min_savings_bytes),
        min_savings_basis_points: if left.min_savings_basis_points
            >= right.min_savings_basis_points {
            left.min_savings_basis_points
        } else {
            right.min_savings_basis_points
        },
    }
}

/// Two lists hold the same patterns.
pub open spec fn same_patterns(left: Seq<LinePattern>, right: Seq<LinePattern>) -> bool {
    left.len() == right.len() && forall|i: int|
        0 <= i < left.len() ==> same_pattern(#[trigger] left[i], right[i])
}

/// Two reducers classify lines alike.
pub open spec fn same_reducer(left: Option<ReducerModel>, right: Option<ReducerModel>) -> bool {
    match (left, right) {
        (None, None) => true,
        (
            Some(ReducerModel::LineFilter { strip_ansi: left_strip, drop: left_drop, keep: left_keep }),
            Some(ReducerModel::LineFilter { strip_ansi: right_strip, drop: right_drop, keep: right_keep }),
        ) => left_strip == right_strip && same_patterns(left_drop, right_drop) && same_patterns(
            left_keep,
            right_keep,
        ),
        (Some(first), Some(second)) => first == second && !(first is LineFilter),
        _ => false,
    }
}

/// A rule for the output of two commands.
pub open spec fn merged_rule(selected: Option<RuleModel>, candidate: RuleModel) -> Result<
    RuleModel,
    Seq<char>,
> {
    match selected {
        None => Ok(candidate),
        Some(existing) => if !same_reducer(existing.reducer, candidate.reducer) {
            Err("compound command mixes reducer families"@)
        } else if existing.success is None {
            Err("selected rule has no success policy"@)
        } else if candidate.success is None {
            Err("candidate rule has no success policy"@)
        } else if existing.failure is None {
            Err("selected rule has no failure policy"@)
        } else if candidate.failure is None {
            Err("candidate rule has no failure policy"@)
        } else {
            Ok(
                RuleModel {
                    success: Some(merged_policy(existing.success->0, candidate.success->0)),
                    failure: Some(merged_policy(existing.failure->0, candidate.failure->0)),
                    ..existing
                },
            )
        },
    }
}

/// What the built-in rules make of a command line.
pub open spec fn chosen(builtin: BuiltinPack, words: Seq<Seq<char>>) -> SelectionModel {
    if words.len() == 0 {
        SelectionModel::Unsupported
    } else {
        resolved(builtin_matches(builtin, words, builtin.rules@.len()))
    }
}

/// The rule for a simple command, and whether the command prepares the shell for others.
pub open spec fn simple_choice(builtin: BuiltinPack, words: Seq<Seq<char>>) -> Result<
    (Option<RuleModel>, bool),
    Seq<char>,
> {
    if is_setup(words) || only_assignments(words) {
        Ok((None, true))
    } else {
        match output_command(words) {
            Err(fault) => Err(fault),
            Ok(None) => Ok((None, true)),
            Ok(Some(rest)) => match chosen(builtin, rest) {
                SelectionModel::Reduce(selected) => Ok((Some(selected.rule), false)),
                SelectionModel::Transform(_) => Err("line transform has no pipeline input"@),
                _ => Err("compound command contains an unsupported or guarded command"@),
            },
        }
    }
}

/// The rule for a pipeline after one more stage, and the programs that keep its lines.
pub open spec fn stage_choice(
    builtin: BuiltinPack,
    selected: Option<RuleModel>,
    programs: TransformPrograms,
    words: Seq<Seq<char>>,
) -> Result<(Option<RuleModel>, TransformPrograms), Seq<char>> {
    if is_setup(words) || only_assignments(words) {
        Err("pipeline contains a setup command"@)
    } else {
        match output_command(words) {
            Err(fault) => Err(fault),
            Ok(None) => Err("pipeline stage has no output command"@),
            Ok(Some(rest)) => match chosen(builtin, rest) {
                SelectionModel::Reduce(candidate) => match merged_rule(selected, candidate.rule) {
                    Err(fault) => Err(fault),
                    Ok(rule) => Ok((Some(rule), programs)),
                },
                SelectionModel::Transform(candidate) => if candidate.rule.transform != Some(
                    Transform::LinePreserving,
                ) {
                    Err("pipeline transform is unsupported"@)
                } else {
                    match transform_fault(rest) {
                        Some(fault) => Err(fault),
                        None => if selected is None {
                            Err("pipeline transform has no typed input"@)
                        } else {
                            Ok((selected, programs.with(rest[0])))
                        },
                    }
                },
                _ => Err("pipeline contains an unsupported or guarded command"@),
            },
        }
    }
}

/// The rule for the first `count` stages of a pipeline, and the programs that keep its lines.
pub open spec fn stages_choice(
    builtin: BuiltinPack,
    stages: Seq<Seq<Seq<char>>>,
    count: nat,
) -> Result<(Option<RuleModel>, TransformPrograms), Seq<char>>
    decreases count,
{
    if count == 0 {
        Ok((None, TransformPrograms::none()))
    } else {
        match stages_choice(builtin, stages, (count - 1) as nat) {
            Err(fault) => Err(fault),
            Ok((selected, programs)) => stage_choice(
                builtin,
                selected,
                programs,
                stages[count - 1],
            ),
        }
    }
}

/// The rule for a pipeline, and the programs that keep its lines.
pub open spec fn pipeline_choice(builtin: BuiltinPack, stages: Seq<Seq<Seq<char>>>) -> Result<
    (RuleModel, TransformPrograms),
    Seq<char>,
> {
    match stages_choice(builtin, stages, stages.len()) {
        Err(fault) => Err(fault),
        Ok((None, programs)) => Err("pipeline has no supported output command"@),
        Ok((Some(rule), programs)) => Ok((rule, programs)),
    }
}

/// What is known of a compound command after some of its items.
#[verifier::ext_equal]
pub struct PlanState {
    pub selected: Option<RuleModel>,
    pub confidence: StatusConfidence,
    pub diagnostics: TransformPrograms,
    pub setup: bool,
    pub pipefail: Option<bool>,
    pub had_output: bool,
}

/// What is known before the first item.
pub open spec fn initial_state() -> PlanState {
    PlanState {
        selected: None,
        confidence: StatusConfidence::Complete,
        diagnostics: TransformPrograms::none(),
        setup: false,
        pipefail: Some(false),
        had_output: false,
    }
}

/// The connector in front of an item.
pub open spec fn connector_before(connectors: Seq<Connector>, index: int) -> Option<Connector> {
    if 0 < index <= connectors.len() {
        Some(connectors[index - 1])
    } else {
        None
    }
}

/// Whether pipelines report the failure of any stage, after an item was read.
pub open spec fn pipefail_after(
    pipefail: Option<bool>,
    item: ItemModel,
    connector: Option<Connector>,
) -> Option<bool> {
    match item {
        ItemModel::Simple(words) => match pipefail_of(words) {
            Some(value) => if connector is None || connector == Some(Connector::Sequence) {
                Some(value)
            } else {
                None
            },
            None => pipefail,
        },
        ItemModel::Pipeline(_) => pipefail,
    }
}

/// The rule for an item, whether the item prepares the shell for others, and the programs that
/// keep its lines.
pub open spec fn item_choice(builtin: BuiltinPack, item: ItemModel) -> Result<
    (Option<RuleModel>, bool, TransformPrograms),
    Seq<char>,
> {
    match item {
        ItemModel::Simple(words) => match simple_choice(builtin, words) {
            Err(fault) => Err(fault),
            Ok((rule, setup)) => Ok((rule, setup, TransformPrograms::none())),
        },
        ItemModel::Pipeline(stages) => match pipeline_choice(builtin, stages) {
            Err(fault) => Err(fault),
            Ok((rule, programs)) => Ok((Some(rule), false, programs)),
        },
    }
}

/// The confidence after the connector in front of an item was read.
pub open spec fn connected_confidence(
    confidence: StatusConfidence,
    connector: Option<Connector>,
    had_output: bool,
    visible: bool,
) -> StatusConfidence {
    match connector {
        Some(Connector::Sequence) => if had_output {
            confidence.merged(StatusConfidence::FinalStageOnly)
        } else {
            confidence
        },
        Some(Connector::Or) => if had_output || visible {
            confidence.merged(StatusConfidence::Conditional)
        } else {
            confidence
        },
        _ => confidence,
    }
}

/// What is known after one more item.
pub open spec fn next_state(
    builtin: BuiltinPack,
    state: PlanState,
    item: ItemModel,
    connector: Option<Connector>,
    first: bool,
) -> Result<PlanState, Seq<char>> {
    let pipefail = pipefail_after(state.pipefail, item, connector);
    let confidence = if item is Pipeline && pipefail != Some(true) {
        state.confidence.merged(StatusConfidence::FinalStageOnly)
    } else {
        state.confidence
    };
    match item_choice(builtin, item) {
        Err(fault) => Err(fault),
        Ok((candidate, setup, programs)) => {
            let emits = setup && item is Simple && may_emit(item->Simple_0);
            let visible = candidate is Some || emits;
            if connector is None && !first {
                Err("compound command is missing a connector"@)
            } else {
                let selected = match candidate {
                    None => Ok(state.selected),
                    Some(rule) => match merged_rule(state.selected, rule) {
                        Err(fault) => Err(fault),
                        Ok(merged) => Ok(Some(merged)),
                    },
                };
                match selected {
                    Err(fault) => Err(fault),
                    Ok(rule) => Ok(
                        PlanState {
                            selected: rule,
                            confidence: connected_confidence(
                                confidence,
                                connector,
                                state.had_output,
                                visible,
                            ),
                            diagnostics: state.diagnostics.merged(programs),
                            setup: state.setup || emits,
                            pipefail,
                            had_output: state.had_output || visible,
                        },
                    ),
                }
            }
        },
    }
}

/// What is known after the first `count` items.
pub open spec fn state_after(builtin: BuiltinPack, program: ParseModel, count: nat) -> Result<
    PlanState,
    Seq<char>,
>
    decreases count,
{
    if count == 0 {
        Ok(initial_state())
    } else {
        match state_after(builtin, program, (count - 1) as nat) {
            Err(fault) => Err(fault),
            Ok(state) => next_state(
                builtin,
                state,
                program.items[count - 1],
                connector_before(program.connectors, count - 1),
                count == 1,
            ),
        }
    }
}

/// The plan for the result of a program.
pub open spec fn program_plan(builtin: BuiltinPack, program: ParseModel) -> Result<
    ResultModel,
    Seq<char>,
> {
    match state_after(builtin, program, program.items.len()) {
        Err(fault) => Err(fault),
        Ok(state) => match state.selected {
            None => Err("compound command has no supported output command"@),
            Some(rule) => Ok(
                ResultModel {
                    rule,
                    confidence: state.confidence,
                    diagnostics: state.diagnostics,
                    setup: state.setup,
                },
            ),
        },
    }
}

/// The plan for the result of a command.
pub open spec fn result_plan(builtin: BuiltinPack, command: Seq<char>) -> Result<
    ResultModel,
    Seq<char>,
> {
    match program_of(command) {
        None => Err("shell command uses unsupported syntax"@),
        Some(program) => program_plan(builtin, program),
    }
}

/// Output holds a diagnostic of a setup command.
pub open spec fn has_setup_diagnostic(input: Seq<u8>) -> bool {
    has_any_infix_folded(
        input,
        seq!["cd:", "umask:", "export:", "readonly variable", "not a valid identifier"],
    )
}

/// The confidence with more doubt.
pub fn merge_confidence(left: StatusConfidence, right: StatusConfidence) -> (merged:
    StatusConfidence)
    ensures
        merged == left.merged(right),
{
    match (left, right) {
        (StatusConfidence::Conditional, _) | (_, StatusConfidence::Conditional) => {
            StatusConfidence::Conditional
        },
        (StatusConfidence::FinalStageOnly, _) | (_, StatusConfidence::FinalStageOnly) => {
            StatusConfidence::FinalStageOnly
        },
        (StatusConfidence::Complete, StatusConfidence::Complete) => StatusConfidence::Complete,
    }
}

/// The policy that is at least as generous as both, and as demanding.
pub fn merge_policy(left: OutputPolicy, right: OutputPolicy) -> (merged: OutputPolicy)
    ensures
        merged == merged_policy(left, right),
{
    OutputPolicy {
        max_line_bytes: if left.max_line_bytes >= right.max_line_bytes {
            left.max_line_bytes
        } else {
            right.max_line_bytes
        },
        max_output_bytes: if left.max_output_bytes >= right.max_output_bytes {
            left.max_output_bytes
        } else {
            right.max_output_bytes
        },
        min_savings_bytes: if left.min_savings_bytes >= right.min_savings_bytes {
            left.min_savings_bytes
        } else {
            right.min_savings_bytes
        },
        min_savings_basis_points: if left.min_savings_basis_points
            >= right.min_savings_basis_points {
            left.min_savings_basis_points
        } else {
            right.min_savings_basis_points
        },
    }
}

fn equal_patterns(left: &Vec<LinePattern>, right: &Vec<LinePattern>) -> (same: bool)
    ensures
        same == same_patterns(left@, right@),
{
    if left.len() != right.len() {
        return false;
    }
    let mut i: usize = 0;
    while i < left.len()
        invariant
            i <= left.len(),
            left@.len() == right@.len(),
            forall|j: int| 0 <= j < i ==> same_pattern(#[trigger] left@[j], right@[j]),
        decreases left.len() - i,
    {
        if !(left[i].kind == right[i].kind && same_text(
            left[i].value.as_str(),
            right[i].value.as_str(),
        ) && left[i].case == right[i].case && left[i].trim == right[i].trim) {
            assert(!same_pattern(left@[i as int], right@[i as int]));
            return false;
        }
        i += 1;
    }
    true
}

spec fn reducer_model(reducer: Option<Reducer>) -> Option<ReducerModel> {
    match reducer {
        Some(inner) => Some(inner@),
        None => None,
    }
}

fn equal_reducers(left: &Option<Reducer>, right: &Option<Reducer>) -> (same: bool)
    ensures
        same == same_reducer(reducer_model(*left), reducer_model(*right)),
{
    match (left, right) {
        (None, None) => true,
        (Some(Reducer::SearchSummary), Some(Reducer::SearchSummary)) => true,
        (Some(Reducer::DiffSummary), Some(Reducer::DiffSummary)) => true,
        (Some(Reducer::TestSummary), Some(Reducer::TestSummary)) => true,
        (Some(Reducer::BuildSummary), Some(Reducer::BuildSummary)) => true,
        (Some(Reducer::LogSummary), Some(Reducer::LogSummary)) => true,
        (Some(Reducer::StatusSummary), Some(Reducer::StatusSummary)) => true,
        (Some(Reducer::ListSummary), Some(Reducer::ListSummary)) => true,
        (
            Some(Reducer::LineFilter { strip_ansi: left_strip, drop: left_drop, keep: left_keep }),
            Some(Reducer::LineFilter { strip_ansi: right_strip, drop: right_drop, keep: right_keep }),
        ) => *left_strip == *right_strip && equal_patterns(left_drop, right_drop)
            && equal_patterns(left_keep, right_keep),
        _ => false,
    }
}

/// Make one rule for the output of two commands.
///
/// # Errors
///
/// Returns an error when the rules classify lines differently, or when one lacks a policy.
pub fn merge_rule(selected: Option<Rule>, candidate: Rule) -> (result: Result<Rule, String>)
    ensures
        match merged_rule(
            match selected {
                Some(rule) => Some(rule@),
                None => None,
            },
            candidate@,
        ) {
            Ok(model) => result matches Ok(rule) && rule@ == model,
            Err(fault) => result matches Err(error) && error@ == fault,
        },
{
    let Some(existing) = selected else {
        return Ok(candidate);
    };
    if !equal_reducers(&existing.reducer, &candidate.reducer) {
        return Err("compound command mixes reducer families".to_owned());
    }
    let Some(existing_success) = existing.success else {
        return Err("selected rule has no success policy".to_owned());
    };
    let Some(candidate_success) = candidate.success else {
        return Err("candidate rule has no success policy".to_owned());
    };
    let Some(existing_failure) = existing.failure else {
        return Err("selected rule has no failure policy".to_owned());
    };
    let Some(candidate_failure) = candidate.failure else {
        return Err("candidate rule has no failure policy".to_owned());
    };
    Ok(
        Rule {
            id: existing.id,
            matcher: existing.matcher,
            action: existing.action,
            transform: existing.transform,
            reducer: existing.reducer,
            success: Some(merge_policy(existing_success, candidate_success)),
            failure: Some(merge_policy(existing_failure, candidate_failure)),
        },
    )
}

fn into_rule(data: SelectedRuleData) -> (rule: Rule)
    ensures
        rule == data.selected(),
{
    match data {
        SelectedRuleData::Builtin(rule) => rule,
        SelectedRuleData::External(rule) => rule,
    }
}

/// Select what the built-in rules make of a command line.
///
/// # Errors
///
/// Never fails: a registry without external packs has no record that could be corrupt.
pub fn select_builtin_argv(arguments: &[String], builtins: &Registry) -> (result: Result<
    Selection,
    String,
>)
    requires
        builtins.well_formed(),
        builtins.external@.len() == 0,
    ensures
        result matches Ok(selection) && selection@ == chosen(builtins.builtin, texts(arguments@)),
{
    let contents: Vec<Result<Vec<u8>, String>> = Vec::new();
    builtins.select(arguments, &contents)
}

/// Select what the built-in rules make of a command, given its words.
///
/// # Errors
///
/// Returns an error when the command could not be parsed.
pub fn select_builtin_words(words: Result<Vec<String>, String>, builtins: &Registry) -> (result:
    Result<(Vec<String>, Selection), String>)
    requires
        builtins.well_formed(),
        builtins.external@.len() == 0,
    ensures
        match words {
            Err(error) => result == Err::<(Vec<String>, Selection), String>(error),
            Ok(arguments) => result matches Ok((parsed, selection)) && parsed == arguments
                && selection@ == chosen(builtins.builtin, texts(arguments@)),
        },
{
    let arguments = words?;
    let selection = select_builtin_argv(arguments.as_slice(), builtins)?;
    Ok((arguments, selection))
}

/// Select what the built-in rules make of a simple command.
///
/// # Errors
///
/// Returns an error when the command is not simple.
pub fn select_builtin_command(command: &str, builtins: &Registry) -> (result: Result<
    (Vec<String>, Selection),
    String,
>)
    requires
        command@.len() < usize::MAX - 4,
        builtins.well_formed(),
        builtins.external@.len() == 0,
    ensures
        match simple_words(command@) {
            None => result matches Err(error) && error@ == "shell command uses unsupported syntax"@,
            Some(words) => result matches Ok((parsed, selection)) && texts(parsed@) == words
                && selection@ == chosen(builtins.builtin, words),
        },
{
    select_builtin_words(parse_simple_words(command), builtins)
}

fn select_simple(command: &SimpleCommand, builtins: &Registry) -> (result: Result<
    (Option<Rule>, bool),
    String,
>)
    requires
        builtins.well_formed(),
        builtins.external@.len() == 0,
    ensures
        match simple_choice(builtins.builtin, command@) {
            Err(fault) => result matches Err(error) && error@ == fault,
            Ok((None, setup)) => result matches Ok((None, found)) && found == setup,
            Ok((Some(model), setup)) => result matches Ok((Some(rule), found)) && rule@ == model
                && found == setup,
        },
{
    let words = command.words.as_slice();
    if is_setup_command(words) || all_assignments(words) {
        return Ok((None, true));
    }
    match normalize_result_words(words)? {
        None => Ok((None, true)),
        Some(rest) => match select_builtin_argv(rest, builtins)? {
            Selection::Reduce(candidate) => Ok((Some(into_rule(candidate.rule)), false)),
            Selection::Transform(_) => Err("line transform has no pipeline input".to_owned()),
            _ => Err("compound command contains an unsupported or guarded command".to_owned()),
        },
    }
}

spec fn stage_words(stages: Seq<SimpleCommand>) -> Seq<Seq<Seq<char>>> {
    stages.map_values(|stage: SimpleCommand| stage@)
}

proof fn lemma_stages_fault_stays(
    builtin: BuiltinPack,
    stages: Seq<Seq<Seq<char>>>,
    count: nat,
    total: nat,
)
    requires
        count <= total,
        stages_choice(builtin, stages, count) is Err,
    ensures
        stages_choice(builtin, stages, total) == stages_choice(builtin, stages, count),
    decreases total,
{
    if count < total {
        lemma_stages_fault_stays(builtin, stages, count, (total - 1) as nat);
    }
}

/// Take one more stage of a pipeline into account.
fn add_stage(
    stage: &SimpleCommand,
    builtins: &Registry,
    selected: Option<Rule>,
    diagnostics: &mut TransformDiagnostics,
) -> (result: Result<Option<Rule>, String>)
    requires
        builtins.well_formed(),
        builtins.external@.len() == 0,
    ensures
        match stage_choice(
            builtins.builtin,
            match selected {
                Some(rule) => Some(rule@),
                None => None,
            },
            old(diagnostics)@,
            stage@,
        ) {
            Err(fault) => result matches Err(error) && error@ == fault,
            Ok((None, programs)) => result matches Ok(None) && final(diagnostics)@ == programs,
            Ok((Some(model), programs)) => result matches Ok(Some(rule)) && rule@ == model
                && final(diagnostics)@ == programs,
        },
{
    let words = stage.words.as_slice();
    if is_setup_command(words) || all_assignments(words) {
        return Err("pipeline contains a setup command".to_owned());
    }
    let Some(rest) = normalize_result_words(words)? else {
        return Err("pipeline stage has no output command".to_owned());
    };
    match select_builtin_argv(rest, builtins)? {
        Selection::Reduce(candidate) => {
            let rule = merge_rule(selected, into_rule(candidate.rule))?;
            Ok(Some(rule))
        },
        Selection::Transform(candidate) => {
            match candidate.rule.rule().transform {
                Some(transform) => {
                    if transform != Transform::LinePreserving {
                        return Err("pipeline transform is unsupported".to_owned());
                    }
                },
                None => {
                    return Err("pipeline transform is unsupported".to_owned());
                },
            }
            validate_line_preserving(rest)?;
            if selected.is_none() {
                return Err("pipeline transform has no typed input".to_owned());
            }
            assert(texts(rest@)[0] == rest@[0]@);
            diagnostics.insert(rest[0].as_str());
            Ok(selected)
        },
        _ => Err("pipeline contains an unsupported or guarded command".to_owned()),
    }
}

fn select_pipeline(stages: &Vec<SimpleCommand>, builtins: &Registry) -> (result: Result<
    (Rule, TransformDiagnostics),
    String,
>)
    requires
        builtins.well_formed(),
        builtins.external@.len() == 0,
    ensures
        match pipeline_choice(builtins.builtin, stage_words(stages@)) {
            Err(fault) => result matches Err(error) && error@ == fault,
            Ok((model, programs)) => result matches Ok((rule, diagnostics)) && rule@ == model
                && diagnostics@ == programs,
        },
{
    let ghost all = stage_words(stages@);
    let mut selected: Option<Rule> = None;
    let mut diagnostics = TransformDiagnostics::default();
    let mut i: usize = 0;
    while i < stages.len()
        invariant
            i <= stages.len(),
            all == stage_words(stages@),
            builtins.well_formed(),
            builtins.external@.len() == 0,
            stages_choice(builtins.builtin, all, i as nat) == Ok::<
                (Option<RuleModel>, TransformPrograms),
                Seq<char>,
            >(
                (
                    match selected {
                        Some(rule) => Some(rule@),
                        None => None,
                    },
                    diagnostics@,
                ),
            ),
        decreases stages.len() - i,
    {
        assert(all[i as int] == stages@[i as int]@);
        match add_stage(&stages[i], builtins, selected, &mut diagnostics) {
            Ok(next) => {
                selected = next;
            },
            Err(error) => {
                proof {
                    lemma_stages_fault_stays(builtins.builtin, all, i as nat + 1, all.len());
                }
                return Err(error);
            },
        }
        i += 1;
    }
    match selected {
        Some(rule) => Ok((rule, diagnostics)),
        None => Err("pipeline has no supported output command".to_owned()),
    }
}

/// Whether output holds a diagnostic of a setup command that can fail.
#[must_use]
pub fn contains_setup_diagnostic(input: &[u8]) -> (found: bool)
    ensures
        found == has_setup_diagnostic(input@),
{
    contains_any_folded(
        input,
        &["cd:", "umask:", "export:", "readonly variable", "not a valid identifier"],
    )
}

proof fn lemma_state_fault_stays(
    builtin: BuiltinPack,
    program: ParseModel,
    count: nat,
    total: nat,
)
    requires
        count <= total,
        state_after(builtin, program, count) is Err,
    ensures
        state_after(builtin, program, total) == state_after(builtin, program, count),
    decreases total,
{
    if count < total {
        lemma_state_fault_stays(builtin, program, count, (total - 1) as nat);
    }
}

/// What is known of a compound command after some of its items.
struct Progress {
    selected: Option<Rule>,
    confidence: StatusConfidence,
    diagnostics: TransformDiagnostics,
    setup: bool,
    pipefail: Option<bool>,
    had_output: bool,
}

impl View for Progress {
    type V = PlanState;

    closed spec fn view(&self) -> PlanState {
        PlanState {
            selected: match self.selected {
                Some(rule) => Some(rule@),
                None => None,
            },
            confidence: self.confidence,
            diagnostics: self.diagnostics@,
            setup: self.setup,
            pipefail: self.pipefail,
            had_output: self.had_output,
        }
    }
}

/// Select the rule of an item, whether it prepares the shell for others, and the programs that
/// keep its lines.
fn select_item(item: &ShellItem, builtins: &Registry) -> (result: Result<
    (Option<Rule>, bool, TransformDiagnostics),
    String,
>)
    requires
        builtins.well_formed(),
        builtins.external@.len() == 0,
    ensures
        match item_choice(builtins.builtin, item@) {
            Err(fault) => result matches Err(error) && error@ == fault,
            Ok((None, setup, programs)) => result matches Ok((None, found, diagnostics)) && found
                == setup && diagnostics@ == programs,
            Ok((Some(model), setup, programs)) => result matches Ok(
                (Some(rule), found, diagnostics),
            ) && rule@ == model && found == setup && diagnostics@ == programs,
        },
{
    match item {
        ShellItem::Simple(command) => {
            let (rule, setup) = select_simple(command, builtins)?;
            Ok((rule, setup, TransformDiagnostics::default()))
        },
        ShellItem::Pipeline(stages) => {
            assert(item@ == ItemModel::Pipeline(stage_words(stages@)));
            let (rule, diagnostics) = select_pipeline(stages, builtins)?;
            Ok((Some(rule), false, diagnostics))
        },
    }
}

fn pipefail_update(item: &ShellItem, connector: Option<Connector>, pipefail: Option<bool>) -> (next:
    Option<bool>)
    ensures
        next == pipefail_after(pipefail, item@, connector),
{
    match item {
        ShellItem::Simple(command) => match pipefail_setting(command.words.as_slice()) {
            Some(value) => match connector {
                None => Some(value),
                Some(Connector::Sequence) => Some(value),
                _ => None,
            },
            None => pipefail,
        },
        ShellItem::Pipeline(_) => pipefail,
    }
}

fn connect(
    confidence: StatusConfidence,
    connector: Option<Connector>,
    had_output: bool,
    visible: bool,
) -> (next: StatusConfidence)
    ensures
        next == connected_confidence(confidence, connector, had_output, visible),
{
    match connector {
        Some(Connector::Sequence) => {
            if had_output {
                merge_confidence(confidence, StatusConfidence::FinalStageOnly)
            } else {
                confidence
            }
        },
        Some(Connector::Or) => {
            if had_output || visible {
                merge_confidence(confidence, StatusConfidence::Conditional)
            } else {
                confidence
            }
        },
        _ => confidence,
    }
}

fn advance(
    progress: Progress,
    item: &ShellItem,
    connector: Option<Connector>,
    first: bool,
    builtins: &Registry,
) -> (result: Result<Progress, String>)
    requires
        builtins.well_formed(),
        builtins.external@.len() == 0,
    ensures
        match next_state(builtins.builtin, progress@, item@, connector, first) {
            Ok(state) => result matches Ok(next) && next@ == state,
            Err(fault) => result matches Err(error) && error@ == fault,
        },
{
    let pipefail = pipefail_update(item, connector, progress.pipefail);
    let confidence = match item {
        ShellItem::Simple(_) => progress.confidence,
        ShellItem::Pipeline(_) => match pipefail {
            Some(true) => progress.confidence,
            _ => merge_confidence(progress.confidence, StatusConfidence::FinalStageOnly),
        },
    };
    let (candidate, setup, programs) = select_item(item, builtins)?;
    let emits = match item {
        ShellItem::Simple(command) => setup && setup_may_emit(command.words.as_slice()),
        ShellItem::Pipeline(_) => false,
    };
    let visible = candidate.is_some() || emits;
    if connector.is_none() && !first {
        return Err("compound command is missing a connector".to_owned());
    }
    let selected = match candidate {
        None => progress.selected,
        Some(rule) => {
            let merged = merge_rule(progress.selected, rule)?;
            Some(merged)
        },
    };
    let mut diagnostics = progress.diagnostics;
    diagnostics.merge(programs);
    Ok(
        Progress {
            selected,
            confidence: connect(confidence, connector, progress.had_output, visible),
            diagnostics,
            setup: progress.setup || emits,
            pipefail,
            had_output: progress.had_output || visible,
        },
    )
}

/// Select one plan for the result of a program.
///
/// # Errors
///
/// Returns an error when a part of the program is guarded or unsupported, or when its parts are
/// reduced differently. Callers leave the output unchanged on every error.
fn plan_program(
    program: &ShellProgram,
    builtins: &Registry,
    Ghost(model): Ghost<ParseModel>,
) -> (result: Result<ResultPlan, String>)
    requires
        is_program(*program, model),
        builtins.well_formed(),
        builtins.external@.len() == 0,
    ensures
        match program_plan(builtins.builtin, model) {
            Ok(selected) => result matches Ok(plan) && plan@ == selected,
            Err(fault) => result matches Err(error) && error@ == fault,
        },
{
    let mut progress = Progress {
        selected: None,
        confidence: StatusConfidence::Complete,
        diagnostics: TransformDiagnostics::default(),
        setup: false,
        pipefail: Some(false),
        had_output: false,
    };
    let mut i: usize = 0;
    while i < program.items.len()
        invariant
            i <= program.items.len(),
            builtins.well_formed(),
            builtins.external@.len() == 0,
            is_program(*program, model),
            state_after(builtins.builtin, model, i as nat) == Ok::<PlanState, Seq<char>>(
                progress@,
            ),
        decreases program.items.len() - i,
    {
        let connector: Option<Connector> = if i > 0 && i <= program.connectors.len() {
            Some(program.connectors[i - 1])
        } else {
            None
        };
        match advance(progress, &program.items[i], connector, i == 0, builtins) {
            Ok(next) => {
                progress = next;
            },
            Err(error) => {
                proof {
                    lemma_state_fault_stays(
                        builtins.builtin,
                        model,
                        i as nat + 1,
                        model.items.len(),
                    );
                }
                return Err(error);
            },
        }
        i += 1;
    }
    match progress.selected {
        None => Err("compound command has no supported output command".to_owned()),
        Some(rule) => Ok(
            ResultPlan {
                rule,
                status_confidence: progress.confidence,
                transform_diagnostics: progress.diagnostics,
                fail_open_setup_diagnostics: progress.setup,
            },
        ),
    }
}

/// Select one plan for the result of a compound command.
///
/// # Errors
///
/// Returns an error when the command uses syntax that is not supported, when a part of it is not
/// known or guarded, or when its parts have different rules. Callers then leave the result as it is.
pub fn select_result_plan(command: &str, builtins: &Registry) -> (result: Result<
    ResultPlan,
    String,
>)
    requires
        command@.len() < usize::MAX - 4,
        builtins.well_formed(),
        builtins.external@.len() == 0,
    ensures
        match result_plan(builtins.builtin, command@) {
            Ok(model) => result matches Ok(plan) && plan@ == model,
            Err(fault) => result matches Err(error) && error@ == fault,
        },
{
    let program = parse(command)?;
    plan_program(&program, builtins, Ghost(program_of(command@)->0))
}

/// Select one rule for the result of a compound command.
///
/// # Errors
///
/// Returns the same errors as [`select_result_plan`].
pub fn select_result_rule(command: &str, builtins: &Registry) -> (result: Result<Rule, String>)
    requires
        command@.len() < usize::MAX - 4,
        builtins.well_formed(),
        builtins.external@.len() == 0,
    ensures
        match result_plan(builtins.builtin, command@) {
            Ok(model) => result matches Ok(rule) && rule@ == model.rule,
            Err(fault) => result matches Err(error) && error@ == fault,
        },
{
    let plan = select_result_plan(command, builtins)?;
    Ok(plan.rule)
}

/// The order in which confidences are merged does not matter, nor does merging one twice; and
/// merging never removes doubt.
pub proof fn lemma_confidence_merges(
    first: StatusConfidence,
    second: StatusConfidence,
    third: StatusConfidence,
)
    ensures
        first.merged(second) == second.merged(first),
        first.merged(second).merged(third) == first.merged(second.merged(third)),
        first.merged(first) == first,
        first.merged(second).doubt() >= first.doubt(),
{
}

/// A merged policy allows at least what either policy allows and asks for at least the savings
/// that either asks for.
pub proof fn lemma_policy_dominates(left: OutputPolicy, right: OutputPolicy)
    ensures
        merged_policy(left, right) == merged_policy(right, left),
        merged_policy(left, right).max_line_bytes >= left.max_line_bytes,
        merged_policy(left, right).max_output_bytes >= left.max_output_bytes,
        merged_policy(left, right).min_savings_bytes >= left.min_savings_bytes,
        merged_policy(left, right).min_savings_basis_points >= left.min_savings_basis_points,
{
}

/// A step of a compound command never removes doubt about its status.
pub proof fn lemma_doubt_grows(
    builtin: BuiltinPack,
    state: PlanState,
    item: ItemModel,
    connector: Option<Connector>,
    first: bool,
)
    ensures
        next_state(builtin, state, item, connector, first) matches Ok(next)
            ==> next.confidence.doubt() >= state.confidence.doubt(),
{
}

/// A built-in rule has this reducer.
pub open spec fn has_reducer(builtin: BuiltinPack, reducer: Option<ReducerModel>) -> bool {
    exists|i: int|
        0 <= i < builtin.rules@.len() && (#[trigger] builtin.rules@[i])@.reducer == reducer
}

proof fn lemma_matches_are_builtin(
    builtin: BuiltinPack,
    words: Seq<Seq<char>>,
    count: nat,
    index: int,
)
    requires
        count <= builtin.rules@.len(),
        0 <= index < builtin_matches(builtin, words, count).len(),
    ensures
        has_reducer(builtin, builtin_matches(builtin, words, count)[index].rule.reducer),
    decreases count,
{
    let earlier = builtin_matches(builtin, words, (count - 1) as nat);
    let rule = builtin.rules@[count - 1];
    if rule.matcher.covers(words) && index == earlier.len() {
        assert(rule@.reducer == builtin_matches(builtin, words, count)[index].rule.reducer);
    } else {
        lemma_matches_are_builtin(builtin, words, (count - 1) as nat, index);
    }
}

proof fn lemma_first_change_within(matches: Seq<SelectedModel>, from: int)
    requires
        0 <= from,
    ensures
        first_change(matches, from) matches Some(index) ==> 0 <= index < matches.len(),
    decreases matches.len() - from,
{
    if from < matches.len() {
        lemma_first_change_within(matches, from + 1);
    }
}

proof fn lemma_chosen_is_builtin(builtin: BuiltinPack, words: Seq<Seq<char>>)
    ensures
        chosen(builtin, words) matches SelectionModel::Reduce(selected) ==> has_reducer(
            builtin,
            selected.rule.reducer,
        ),
{
    let matches = builtin_matches(builtin, words, builtin.rules@.len());
    lemma_first_change_within(matches, 0);
    if let Some(index) = first_change(matches, 0) {
        lemma_matches_are_builtin(builtin, words, builtin.rules@.len(), index);
    }
}

proof fn lemma_stages_are_builtin(
    builtin: BuiltinPack,
    stages: Seq<Seq<Seq<char>>>,
    count: nat,
)
    ensures
        stages_choice(builtin, stages, count) matches Ok((Some(rule), programs)) ==> has_reducer(
            builtin,
            rule.reducer,
        ),
    decreases count,
{
    if count > 0 {
        lemma_stages_are_builtin(builtin, stages, (count - 1) as nat);
        if let Ok(Some(rest)) = output_command(stages[count - 1]) {
            lemma_chosen_is_builtin(builtin, rest);
        }
    }
}

proof fn lemma_state_is_builtin(builtin: BuiltinPack, program: ParseModel, count: nat)
    ensures
        state_after(builtin, program, count) matches Ok(state) ==> (state.selected matches Some(
            rule,
        ) ==> has_reducer(builtin, rule.reducer)),
    decreases count,
{
    if count > 0 {
        lemma_state_is_builtin(builtin, program, (count - 1) as nat);
        match program.items[count - 1] {
            ItemModel::Simple(words) => {
                if let Ok(Some(rest)) = output_command(words) {
                    lemma_chosen_is_builtin(builtin, rest);
                }
            },
            ItemModel::Pipeline(stages) => {
                lemma_stages_are_builtin(builtin, stages, stages.len());
            },
        }
    }
}

/// However many commands a plan covers, it reduces their output with the reducer of a built-in rule.
pub proof fn lemma_plan_keeps_reducer(builtin: BuiltinPack, command: Seq<char>)
    ensures
        result_plan(builtin, command) matches Ok(plan) ==> has_reducer(builtin, plan.rule.reducer),
{
    if let Some(program) = program_of(command) {
        lemma_state_is_builtin(builtin, program, program.items.len());
    }
}

} // verus!
