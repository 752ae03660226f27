//! What holds of plans, told by the words of a command.
use vstd::prelude::*;

use super::diagnostics::TransformPrograms;
use super::result_plan::{
    PlanState, StatusConfidence, chosen, initial_state, merged_policy, next_state, pipeline_choice,
    program_plan, stage_choice, stages_choice, state_after,
};
use super::transforms::{reads_stdin, selector_fault, sort_fault, transform_fault, uniq_fault};
use super::words::{after_assignments, assigns, is_setup, only_assignments, output_command};
use super::wrapper::{ArchiveCommandRef, PlanModel, ResultPolicy, planned, trimmed};
use crate::bytes::lit;
use crate::reducers::wording::{exact_word_at, starts};
use crate::rule_pack::model::OutputPolicy;
use crate::rules::SelectionModel;
use crate::rules::registry::{BuiltinPack, Registry};
use crate::shell::parser::ParseModel;
use crate::shell::{Connector, ItemModel};
use crate::text::{one_of, opens_with};

verus! {

/// Doubt about a status adds up: without doubt nothing changes, and the greatest doubt stays.
pub proof fn lemma_doubt_adds_up(left: StatusConfidence, right: StatusConfidence)
    ensures
        left == StatusConfidence::Complete ==> left.merged(right) == right && right.merged(left)
            == right,
        left == StatusConfidence::Conditional ==> left.merged(right) == left && right.merged(left)
            == left,
        left == StatusConfidence::FinalStageOnly && right == left ==> left.merged(right) == left,
{
}

/// The policy for two commands allows at least what either allows, and asks for at least the
/// savings that either asks for.
pub proof fn lemma_policies_join(left: OutputPolicy, right: OutputPolicy)
    ensures
        ({
            let both = merged_policy(left, right);
            &&& both.max_line_bytes >= left.max_line_bytes
            &&& both.max_line_bytes >= right.max_line_bytes
            &&& both.max_line_bytes == left.max_line_bytes || both.max_line_bytes
                == right.max_line_bytes
            &&& both.max_output_bytes >= left.max_output_bytes
            &&& both.max_output_bytes >= right.max_output_bytes
            &&& both.max_output_bytes == left.max_output_bytes || both.max_output_bytes
                == right.max_output_bytes
            &&& both.min_savings_bytes >= left.min_savings_bytes
            &&& both.min_savings_bytes >= right.min_savings_bytes
            &&& both.min_savings_bytes == left.min_savings_bytes || both.min_savings_bytes
                == right.min_savings_bytes
            &&& both.min_savings_basis_points >= left.min_savings_basis_points
            &&& both.min_savings_basis_points >= right.min_savings_basis_points
            &&& both.min_savings_basis_points == left.min_savings_basis_points
                || both.min_savings_basis_points == right.min_savings_basis_points
        }),
{
}

/// A command that turns the failure of any stage of a pipeline into the failure of the pipeline.
pub open spec fn turns_on_pipefail(item: ItemModel) -> bool {
    item == ItemModel::Simple(seq!["set"@, "-o"@, "pipefail"@])
}

/// What one more command does to what is known of a program.
///
/// - A pipeline whose stages may fail unseen casts doubt on the status, and so does an output
///   before `;`. What stands behind `||` makes the status conditional.
/// - Doubt and output never go away again.
/// - `set -o pipefail` counts for what follows, where it runs for sure.
pub proof fn lemma_next_command(
    builtin: BuiltinPack,
    state: PlanState,
    item: ItemModel,
    connector: Option<Connector>,
    first: bool,
)
    requires
        next_state(builtin, state, item, connector, first) is Ok,
    ensures
        ({
            let after = next_state(builtin, state, item, connector, first)->Ok_0;
            &&& state.confidence != StatusConfidence::Complete ==> after.confidence
                != StatusConfidence::Complete
            &&& state.confidence == StatusConfidence::Conditional ==> after.confidence
                == StatusConfidence::Conditional
            &&& item is Pipeline && after.pipefail != Some(true) ==> after.confidence
                != StatusConfidence::Complete
            &&& connector == Some(Connector::Sequence) && state.had_output ==> after.confidence
                != StatusConfidence::Complete
            &&& connector == Some(Connector::Or) && after.had_output ==> after.confidence
                == StatusConfidence::Conditional
            &&& connector != Some(Connector::Or) && connector != Some(Connector::Sequence) && !(
            item is Pipeline) ==> after.confidence == state.confidence
            &&& connector != Some(Connector::Or) && state.confidence
                != StatusConfidence::Conditional ==> after.confidence
                != StatusConfidence::Conditional
            &&& state.had_output ==> after.had_output
            &&& item is Pipeline ==> after.had_output
            &&& after.selected != state.selected ==> after.had_output
            &&& state.setup ==> after.setup
            &&& turns_on_pipefail(item) && (connector is None || connector == Some(
                Connector::Sequence,
            )) ==> after.pipefail == Some(true)
            &&& turns_on_pipefail(item) && (connector == Some(Connector::And) || connector == Some(
                Connector::Or,
            )) ==> after.pipefail is None
            &&& item is Pipeline ==> after.pipefail == state.pipefail
        }),
{
    reveal_strlit("set");
    reveal_strlit("-o");
    reveal_strlit("pipefail");
}

/// Before the first command nothing was printed, nothing is in doubt, and a pipeline fails with
/// its last stage.
pub proof fn lemma_before_the_first_command()
    ensures
        initial_state().confidence == StatusConfidence::Complete,
        initial_state().pipefail == Some(false),
        !initial_state().had_output,
        !initial_state().setup,
        initial_state().selected is None,
        initial_state().diagnostics == TransformPrograms::none(),
{
}

/// A change of directory in front of others: what it prints when it fails may stand in the output.
pub proof fn lemma_setup_may_print(
    builtin: BuiltinPack,
    state: PlanState,
    directory: Seq<char>,
    connector: Option<Connector>,
    first: bool,
)
    requires
        directory.len() > 0,
        directory[0] != '-',
        connector is Some || first,
    ensures
        ({
            let item = ItemModel::Simple(seq!["cd"@, directory]);
            &&& next_state(builtin, state, item, connector, first) is Ok
            &&& next_state(builtin, state, item, connector, first)->Ok_0.setup
            &&& next_state(builtin, state, item, connector, first)->Ok_0.selected
                == state.selected
        }),
{
    reveal_strlit("cd");
    reveal_strlit("-");
    reveal_strlit("set");
    reveal_strlit("export");
    reveal_strlit("umask");
    let words = seq!["cd"@, directory];
    assert(words[0] == "cd"@ && words[1] == directory && words.len() == 2);
    lemma_dashed(directory);
    assert(is_setup(words));
    let names = seq!["cd", "export", "umask"];
    assert(names[0] == "cd");
    assert(one_of("cd"@, names));
}

/// A word that neither assigns a variable nor has a meaning of its own in front of a command.
pub open spec fn is_ordinary_program(word: Seq<char>) -> bool {
    &&& forall|i: int| 0 <= i < word.len() ==> #[trigger] word[i] != '='
    &&& word != "env"@ && word != "command"@ && word != "exec"@ && word != "time"@ && word
        != "timeout"@
    &&& word != ":"@ && word != "true"@ && word != "false"@ && word != "cd"@ && word != "set"@
        && word != "export"@ && word != "umask"@
}

pub proof fn lemma_ordinary_words(words: Seq<Seq<char>>)
    requires
        words.len() > 0,
        is_ordinary_program(words[0]),
    ensures
        !is_setup(words),
        !only_assignments(words),
        after_assignments(words) == words,
        output_command(words) == Ok::<Option<Seq<Seq<char>>>, Seq<char>>(Some(words)),
{
    assert(!assigns(words[0]));
    let quiet = seq![":", "true", "false"];
    assert(!one_of(words[0], quiet)) by {
        if one_of(words[0], quiet) {
            let i = choose|i: int| 0 <= i < quiet.len() && words[0] == (#[trigger] quiet[i])@;
            assert(i == 0 || i == 1 || i == 2);
        }
    }
    let pair = seq!["command", "exec"];
    assert(!one_of(words[0], pair)) by {
        if one_of(words[0], pair) {
            let i = choose|i: int| 0 <= i < pair.len() && words[0] == (#[trigger] pair[i])@;
            assert(i == 0 || i == 1);
        }
    }
    let wrappers = seq!["env", "command", "exec", "time", "timeout"];
    assert(!one_of(words[0], wrappers)) by {
        if one_of(words[0], wrappers) {
            let i = choose|i: int| 0 <= i < wrappers.len() && words[0] == (#[trigger] wrappers[i])@;
            assert(i == 0 || i == 1 || i == 2 || i == 3 || i == 4);
        }
    }
}

/// One ordinary command is handled by the rule for it, and its status tells of its output. A
/// command without such a rule is left alone.
pub proof fn lemma_plan_of_one_command(builtin: BuiltinPack, words: Seq<Seq<char>>)
    requires
        words.len() > 0,
        is_ordinary_program(words[0]),
    ensures
        ({
            let program = ParseModel {
                words: Seq::empty(),
                stages: Seq::empty(),
                items: seq![ItemModel::Simple(words)],
                connectors: Seq::empty(),
            };
            match chosen(builtin, words) {
                SelectionModel::Reduce(selected) => {
                    &&& program_plan(builtin, program) is Ok
                    &&& program_plan(builtin, program)->Ok_0.rule == selected.rule
                    &&& program_plan(builtin, program)->Ok_0.confidence
                        == StatusConfidence::Complete
                    &&& program_plan(builtin, program)->Ok_0.diagnostics
                        == TransformPrograms::none()
                    &&& !program_plan(builtin, program)->Ok_0.setup
                },
                _ => program_plan(builtin, program) is Err,
            }
        }),
{
    lemma_ordinary_words(words);
    let program = ParseModel {
        words: Seq::empty(),
        stages: Seq::empty(),
        items: seq![ItemModel::Simple(words)],
        connectors: Seq::empty(),
    };
    assert(program.items.len() == 1);
    assert(state_after(builtin, program, 0) == Ok::<PlanState, Seq<char>>(initial_state()));
    assert(program.items[0] == ItemModel::Simple(words));
    reveal_with_fuel(state_after, 2);
}

/// An ordinary command whose output goes through a program that keeps lines is handled by the rule
/// for the command, and what that program prints about itself is known.
pub proof fn lemma_plan_of_a_pipeline(
    builtin: BuiltinPack,
    words: Seq<Seq<char>>,
    filter: Seq<Seq<char>>,
)
    requires
        words.len() > 0,
        is_ordinary_program(words[0]),
        chosen(builtin, words) is Reduce,
        filter.len() > 0,
        is_ordinary_program(filter[0]),
        chosen(builtin, filter) is Transform,
        chosen(builtin, filter)->Transform_0.rule.transform == Some(
            crate::rule_pack::model::Transform::LinePreserving,
        ),
    ensures
        ({
            let choice = pipeline_choice(builtin, seq![words, filter]);
            &&& choice is Ok <==> transform_fault(filter) is None
            &&& choice is Ok ==> choice->Ok_0.0 == chosen(builtin, words)->Reduce_0.rule
            &&& choice is Ok ==> choice->Ok_0.1 == TransformPrograms::none().with(filter[0])
        }),
        pipeline_choice(builtin, seq![filter, words]) is Err,
{
    lemma_ordinary_words(words);
    lemma_ordinary_words(filter);
    let stages = seq![words, filter];
    let turned = seq![filter, words];
    assert(stages.len() == 2 && stages[0] == words && stages[1] == filter);
    assert(turned.len() == 2 && turned[0] == filter && turned[1] == words);
    reveal_with_fuel(stages_choice, 3);
    assert(stage_choice(builtin, None, TransformPrograms::none(), filter) is Err);
}

/// A pipeline may end in these programs alone, and none of them reads a file: every argument is an
/// option, `-`, or the value of an option.
pub proof fn lemma_transforms_read_the_pipe(words: Seq<Seq<char>>)
    requires
        transform_fault(words) is None,
    ensures
        words.len() > 0,
        words[0] == "cat"@ || words[0] == "tee"@ || words[0] == "head"@ || words[0] == "tail"@
            || words[0] == "sort"@ || words[0] == "uniq"@,
        words[0] == "cat"@ ==> forall|i: int|
            1 <= i < words.len() ==> #[trigger] words[i] == "-"@ || words[i] == "--"@,
        words[0] != "tee"@ ==> forall|i: int|
            1 <= i < words.len() ==> #[trigger] is_dashed(words[i]) || i > 1 && is_dashed(
                words[i - 1],
            ),
{
    let arguments = words.skip(1);
    let pair = seq!["head", "tail"];
    if words.len() > 0 {
        assert forall|i: int| 1 <= i < words.len() implies #[trigger] words[i] == arguments[i - 1] by {
        }
        if one_of(words[0], pair) {
            let i = choose|i: int| 0 <= i < pair.len() && words[0] == (#[trigger] pair[i])@;
            assert(i == 0 || i == 1);
        }
        if words[0] == "cat"@ {
            assert forall|i: int| 1 <= i < words.len() implies #[trigger] words[i] == "-"@
                || words[i] == "--"@ by {
                lemma_stdin_arguments(arguments, 0, false, i - 1);
            }
        }
        if words[0] != "tee"@ {
            reveal_strlit("cat");
            reveal_strlit("head");
            reveal_strlit("tail");
            reveal_strlit("sort");
            reveal_strlit("uniq");
            reveal_strlit("tee");
            assert("cat"@[0] == 'c' && "head"@[0] == 'h' && "tail"@[1] == 'a' && "sort"@[0] == 's'
                && "uniq"@[0] == 'u' && "tee"@[1] == 'e' && "tail"@[0] == 't');
            assert forall|i: int| 1 <= i < words.len() implies #[trigger] is_dashed(words[i]) || i
                > 1 && is_dashed(words[i - 1]) by {
                if words[0] == "cat"@ {
                    lemma_stdin_arguments(arguments, 0, false, i - 1);
                    reveal_strlit("-");
                    reveal_strlit("--");
                } else if words[0] == "sort"@ {
                    lemma_sort_arguments(arguments, 0, false, i - 1);
                } else if words[0] == "uniq"@ {
                    lemma_uniq_arguments(arguments, 0, false, false, i - 1);
                } else {
                    lemma_selector_arguments(words[0], arguments, 0, false, i - 1);
                }
            }
        }
    }
}

/// A word with a dash in front.
pub open spec fn is_dashed(word: Seq<char>) -> bool {
    word.len() > 0 && word[0] == '-'
}

proof fn lemma_dashed(word: Seq<char>)
    ensures
        opens_with(word, "-"@) <==> is_dashed(word),
        opens_with(word, "--lines="@) ==> is_dashed(word),
        opens_with(word, "-n"@) ==> is_dashed(word),
        is_dashed("-"@),
        is_dashed("--"@),
{
    reveal_strlit("-");
    reveal_strlit("--");
    reveal_strlit("--lines=");
    reveal_strlit("-n");
    if is_dashed(word) {
        assert(word.take(1) =~= "-"@);
    }
    if opens_with(word, "-"@) {
        assert(word.take(1)[0] == word[0]);
    }
    if opens_with(word, "--lines="@) {
        assert(word.take(8)[0] == word[0]);
    }
    if opens_with(word, "-n"@) {
        assert(word.take(2)[0] == word[0]);
    }
}

proof fn lemma_stdin_arguments(arguments: Seq<Seq<char>>, from: int, operands: bool, at: int)
    requires
        0 <= from <= at < arguments.len(),
        reads_stdin(arguments, from, operands),
    ensures
        arguments[at] == "-"@ || arguments[at] == "--"@,
    decreases at - from,
{
    if from < at {
        let next = operands || arguments[from] == "--"@;
        lemma_stdin_arguments(arguments, from + 1, next, at);
    }
}

proof fn lemma_sort_arguments(arguments: Seq<Seq<char>>, from: int, operands: bool, at: int)
    requires
        0 <= from <= at < arguments.len(),
        sort_fault(arguments, from, operands) is None,
    ensures
        is_dashed(arguments[at]) || at > from && is_dashed(arguments[at - 1]),
    decreases at - from,
{
    let argument = arguments[from];
    lemma_dashed(argument);
    if from < at {
        if operands || argument == "-"@ || !opens_with(argument, "-"@) || argument == "--"@ {
            lemma_sort_arguments(arguments, from + 1, true, at);
        } else if at == from + 1 {
        } else if sort_fault(arguments, from + 1, false) is None {
            lemma_sort_arguments(arguments, from + 1, false, at);
        } else {
            lemma_sort_arguments(arguments, from + 2, false, at);
        }
    }
}

proof fn lemma_uniq_arguments(
    arguments: Seq<Seq<char>>,
    from: int,
    operands: bool,
    operand: bool,
    at: int,
)
    requires
        0 <= from <= at < arguments.len(),
        uniq_fault(arguments, from, operands, operand) is None,
    ensures
        is_dashed(arguments[at]) || at > from && is_dashed(arguments[at - 1]),
    decreases at - from,
{
    let argument = arguments[from];
    lemma_dashed(argument);
    if from < at {
        if operands || argument == "-"@ || !opens_with(argument, "-"@) {
            lemma_uniq_arguments(arguments, from + 1, true, true, at);
        } else if argument == "--"@ {
            lemma_uniq_arguments(arguments, from + 1, true, operand, at);
        } else if at == from + 1 {
        } else if uniq_fault(arguments, from + 1, false, operand) is None {
            lemma_uniq_arguments(arguments, from + 1, false, operand, at);
        } else {
            lemma_uniq_arguments(arguments, from + 2, false, operand, at);
        }
    }
}

proof fn lemma_selector_arguments(
    program: Seq<char>,
    arguments: Seq<Seq<char>>,
    from: int,
    operands: bool,
    at: int,
)
    requires
        0 <= from <= at < arguments.len(),
        selector_fault(program, arguments, from, operands) is None,
    ensures
        is_dashed(arguments[at]) || at > from && is_dashed(arguments[at - 1]),
    decreases at - from,
{
    let argument = arguments[from];
    lemma_dashed(argument);
    let quiet = seq!["-q", "--quiet", "--silent"];
    let lines = seq!["-n", "--lines"];
    if one_of(argument, quiet) {
        reveal_strlit("-q");
        reveal_strlit("--quiet");
        reveal_strlit("--silent");
        let i = choose|i: int| 0 <= i < quiet.len() && argument == (#[trigger] quiet[i])@;
        assert(i == 0 || i == 1 || i == 2);
        assert(is_dashed(argument));
    }
    if one_of(argument, lines) {
        reveal_strlit("-n");
        reveal_strlit("--lines");
        let i = choose|i: int| 0 <= i < lines.len() && argument == (#[trigger] lines[i])@;
        assert(i == 0 || i == 1);
        assert(is_dashed(argument));
    }
    assert(is_dashed(argument));
    if from < at {
        if operands || argument == "-"@ || argument == "--"@ {
            lemma_selector_arguments(program, arguments, from + 1, true, at);
        } else if at == from + 1 {
        } else if one_of(argument, lines) {
            assert(!one_of(argument, quiet)) by {
                reveal_strlit("-q");
                reveal_strlit("--quiet");
                reveal_strlit("--silent");
                reveal_strlit("-n");
                reveal_strlit("--lines");
                if one_of(argument, quiet) {
                    let i = choose|i: int|
                        0 <= i < quiet.len() && argument == (#[trigger] quiet[i])@;
                    let j = choose|i: int|
                        0 <= i < lines.len() && argument == (#[trigger] lines[i])@;
                    assert(i == 0 || i == 1 || i == 2);
                    assert(j == 0 || j == 1);
                    assert("--lines"@[2] == 'l' && "--quiet"@[2] == 'q');
                    assert("--silent"@.len() == 8 && "--lines"@.len() == 7);
                    assert("-q"@[1] == 'q' && "-n"@[1] == 'n');
                    assert(false);
                }
            }
            lemma_selector_arguments(program, arguments, from + 2, false, at);
        } else {
            lemma_selector_arguments(program, arguments, from + 1, false, at);
        }
    }
}

/// The line begins with the name of a program and a colon.
pub open spec fn is_diagnostic_of(program: Seq<char>, line: Seq<u8>) -> bool {
    ||| program == "cat"@ && starts(line, "cat:")
    ||| program == "tee"@ && starts(line, "tee:")
    ||| program == "head"@ && starts(line, "head:")
    ||| program == "tail"@ && starts(line, "tail:")
    ||| program == "sort"@ && starts(line, "sort:")
    ||| program == "uniq"@ && starts(line, "uniq:")
}

proof fn lemma_names_start(line: Seq<u8>, word: &str)
    ensures
        starts(line, word) <==> crate::bytes::has_prefix(line, lit(word)),
{
    let needle = lit(word);
    if starts(line, word) {
        assert forall|i: int| 0 <= i < needle.len() implies line.take(needle.len() as int)[i]
            == needle[i] by {
            assert(line[0 + i] == needle[i]);
        }
        assert(line.take(needle.len() as int) =~= needle);
    }
    if crate::bytes::has_prefix(line, needle) {
        assert forall|i: int| 0 <= i < needle.len() implies #[trigger] line[0 + i] == needle[i] by {
            assert(line.take(needle.len() as int)[i] == needle[i]);
        }
        assert(exact_word_at(line, needle, 0));
    }
}

/// A set of programs tells their diagnostics, those of a program that was added and those of
/// another set; the empty set tells none.
pub proof fn lemma_diagnostics_of_programs(
    programs: TransformPrograms,
    others: TransformPrograms,
    program: Seq<char>,
    line: Seq<u8>,
)
    ensures
        !TransformPrograms::none().names(line),
        programs.with(program).names(line) <==> programs.names(line) || is_diagnostic_of(
            program,
            line,
        ),
        programs.merged(others).names(line) <==> programs.names(line) || others.names(line),
{
    lemma_names_start(line, "cat:");
    lemma_names_start(line, "tee:");
    lemma_names_start(line, "head:");
    lemma_names_start(line, "tail:");
    lemma_names_start(line, "sort:");
    lemma_names_start(line, "uniq:");
}

/// A query of the archive is left as it is, and so is its result, whatever rules there are. What is
/// no list of plain words is left as it is.
pub proof fn lemma_queries_are_left_alone(
    command: Seq<char>,
    words: Seq<Seq<char>>,
    archive: Option<ArchiveCommandRef<'_>>,
    packs: Result<Registry, String>,
    contents: Seq<Result<Vec<u8>, String>>,
)
    ensures
        words.len() >= 2 && words[0] == "yarp"@ && (words[1] == "search"@ || words[1] == "read"@)
            && (forall|i: int|
            2 <= i < words.len() ==> #[trigger] words[i] != "--help"@ && words[i] != "-h"@)
            ==> planned(command, Some(words), archive, packs, contents) == Ok::<
            PlanModel,
            Seq<char>,
        >(PlanModel { version: 1, rewritten: None, result: ResultPolicy::Recovery }),
        planned(command, None, archive, packs, contents) == Ok::<PlanModel, Seq<char>>(
            PlanModel { version: 1, rewritten: None, result: ResultPolicy::Ordinary },
        ),
        words.len() > 0 && words[0] != "yarp"@ && planned(
            command,
            Some(words),
            archive,
            packs,
            contents,
        ) is Ok ==> planned(command, Some(words), archive, packs, contents)->Ok_0.result
            == ResultPolicy::Ordinary,
{
    let queries = seq!["search", "read"];
    let help = seq!["--help", "-h"];
    assert(queries[0] == "search" && queries[1] == "read");
    if words.len() >= 2 && words[0] == "yarp"@ && (words[1] == "search"@ || words[1] == "read"@)
        && (forall|i: int|
        2 <= i < words.len() ==> #[trigger] words[i] != "--help"@ && words[i] != "-h"@) {
        assert(one_of(words[1], queries));
        assert forall|i: int| 2 <= i < words.len() implies !one_of(#[trigger] words[i], help) by {
            if one_of(words[i], help) {
                let j = choose|j: int| 0 <= j < help.len() && words[i] == (#[trigger] help[j])@;
                assert(j == 0 || j == 1);
            }
        }
    }
}

/// A command that is replaced still ends with its own text, but for white space around it.
pub proof fn lemma_rewritten_command_ends_alike(
    command: Seq<char>,
    words: Seq<Seq<char>>,
    archive: Option<ArchiveCommandRef<'_>>,
    packs: Result<Registry, String>,
    contents: Seq<Result<Vec<u8>, String>>,
)
    requires
        planned(command, Some(words), archive, packs, contents) is Ok,
        planned(command, Some(words), archive, packs, contents)->Ok_0.rewritten is Some,
    ensures
        ({
            let text = planned(
                command,
                Some(words),
                archive,
                packs,
                contents,
            )->Ok_0.rewritten->Some_0;
            let tail = " -- "@ + trimmed(command);
            &&& text.len() >= tail.len()
            &&& text.skip(text.len() - tail.len()) == tail
            &&& packs is Ok
        }),
{
    let text = planned(command, Some(words), archive, packs, contents)->Ok_0.rewritten->Some_0;
    let tail = " -- "@ + trimmed(command);
    assert(text.skip(text.len() - tail.len()) =~= tail);
}

} // verus!
