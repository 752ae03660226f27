//! What holds of the choice of rules.
use vstd::prelude::*;
use vstd::utf8::encode_utf8;

use super::registry::{BuiltinPack, builtin_matches, is_disabled, rule_named};
use super::{SelectedModel, SelectionModel, first_change, match_ids, resolved};
use crate::rule_pack::compiled::PackModel;
use crate::rule_pack::model::{
    Action, MatcherModel, bundles_short_option, gives_argument, normalized, options_end,
    some_word_gives, stands_alone, takes_value,
};
use crate::text::{one_of, opens_with};

verus! {

proof fn lemma_ids_of_kind(matches: Seq<SelectedModel>, passthrough: bool, count: nat)
    requires
        count <= matches.len(),
    ensures
        ({
            let ids = match_ids(matches, passthrough, count);
            &&& ids.len() + match_ids(matches, !passthrough, count).len() == count
            &&& forall|i: int|
                0 <= i < count && ((#[trigger] matches[i]).rule.action == Action::Passthrough)
                    == passthrough ==> ids.len() > 0 && ids.contains(
                    matches[i].pack_id + "/"@ + matches[i].rule.id,
                )
            &&& forall|id: Seq<char>| #[trigger]
                ids.contains(id) ==> exists|i: int|
                    0 <= i < count && ((#[trigger] matches[i]).rule.action == Action::Passthrough)
                        == passthrough && id == matches[i].pack_id + "/"@ + matches[i].rule.id
        }),
    decreases count,
{
    if count > 0 {
        lemma_ids_of_kind(matches, passthrough, (count - 1) as nat);
        let earlier = match_ids(matches, passthrough, (count - 1) as nat);
        let ids = match_ids(matches, passthrough, count);
        let last = matches[count - 1];
        let own = last.pack_id + "/"@ + last.rule.id;
        if (last.rule.action == Action::Passthrough) == passthrough {
            assert(ids[ids.len() - 1] == own);
        }
        assert forall|i: int|
            0 <= i < count && ((#[trigger] matches[i]).rule.action == Action::Passthrough)
                == passthrough implies ids.len() > 0 && ids.contains(
            matches[i].pack_id + "/"@ + matches[i].rule.id,
        ) by {
            if i < count - 1 {
                let id = matches[i].pack_id + "/"@ + matches[i].rule.id;
                assert(earlier.contains(id));
                let at = choose|at: int| 0 <= at < earlier.len() && earlier[at] == id;
                assert(ids[at] == id);
            }
        }
        assert forall|id: Seq<char>| #[trigger] ids.contains(id) implies exists|i: int|
            0 <= i < count && ((#[trigger] matches[i]).rule.action == Action::Passthrough)
                == passthrough && id == matches[i].pack_id + "/"@ + matches[i].rule.id by {
            let at = choose|at: int| 0 <= at < ids.len() && ids[at] == id;
            if at < earlier.len() {
                assert(earlier[at] == id);
                assert(earlier.contains(id));
            } else {
                assert(matches[count - 1].pack_id + "/"@ + matches[count - 1].rule.id == id);
            }
        }
    }
}

proof fn lemma_first_change_is_one(matches: Seq<SelectedModel>, from: int)
    requires
        0 <= from,
    ensures
        match first_change(matches, from) {
            Some(index) => from <= index < matches.len() && matches[index].rule.action
                != Action::Passthrough,
            None => forall|i: int|
                from <= i < matches.len() ==> (#[trigger] matches[i]).rule.action
                    == Action::Passthrough,
        },
    decreases matches.len() - from,
{
    if from < matches.len() && matches[from].rule.action == Action::Passthrough {
        lemma_first_change_is_one(matches, from + 1);
    }
}

/// What becomes of a command depends on the rules that match it. Where none does, it is
/// unsupported. A rule that passes output through wins over all others. Otherwise one rule is
/// applied, by its own action, and two or more are ambiguous. The rules that stand in the way are
/// named.
pub proof fn lemma_one_rule_decides(matches: Seq<SelectedModel>)
    ensures
        ({
            let guarded = exists|i: int|
                0 <= i < matches.len() && (#[trigger] matches[i]).rule.action
                    == Action::Passthrough;
            &&& resolved(matches) is Unsupported <==> matches.len() == 0
            &&& resolved(matches) is Passthrough <==> guarded
            &&& resolved(matches) is Ambiguous <==> !guarded && matches.len() >= 2
            &&& matches.len() == 1 && matches[0].rule.action == Action::Reduce ==> resolved(matches)
                == SelectionModel::Reduce(matches[0])
            &&& matches.len() == 1 && matches[0].rule.action == Action::Transform ==> resolved(
                matches,
            ) == SelectionModel::Transform(matches[0])
        }),
{
    lemma_ids_of_kind(matches, true, matches.len());
    lemma_ids_of_kind(matches, false, matches.len());
    lemma_first_change_is_one(matches, 0);
    let guards = match_ids(matches, true, matches.len());
    if guards.len() > 0 {
        assert(guards.contains(guards[0]));
    }
    let guarded = exists|i: int|
        0 <= i < matches.len() && (#[trigger] matches[i]).rule.action == Action::Passthrough;
    if guards.len() == 0 && guarded {
        let i = choose|i: int|
            0 <= i < matches.len() && (#[trigger] matches[i]).rule.action == Action::Passthrough;
        assert(guards.contains(matches[i].pack_id + "/"@ + matches[i].rule.id));
    }
}

/// The built-in rules that match a command are exactly those whose matcher covers it.
pub proof fn lemma_builtin_matches_are_covered(
    builtin: BuiltinPack,
    arguments: Seq<Seq<char>>,
    count: nat,
)
    requires
        count <= builtin.rules@.len(),
    ensures
        ({
            let matches = builtin_matches(builtin, arguments, count);
            &&& forall|i: int|
                0 <= i < count && (#[trigger] builtin.rules@[i]).matcher@.covers(arguments)
                    ==> matches.contains(
                    SelectedModel {
                        pack_id: builtin.id@,
                        source_digest: builtin.source_digest@,
                        builtin: true,
                        rule: builtin.rules@[i]@,
                    },
                )
            &&& forall|j: int|
                0 <= j < matches.len() ==> (#[trigger] matches[j]).rule.matcher.covers(arguments)
                    && matches[j].builtin && matches[j].pack_id == builtin.id@
            &&& matches.len() <= count
        }),
    decreases count,
{
    if count > 0 {
        lemma_builtin_matches_are_covered(builtin, arguments, (count - 1) as nat);
        let earlier = builtin_matches(builtin, arguments, (count - 1) as nat);
        let matches = builtin_matches(builtin, arguments, count);
        assert forall|i: int|
            0 <= i < count && (#[trigger] builtin.rules@[i]).matcher@.covers(
                arguments,
            ) implies matches.contains(
            SelectedModel {
                pack_id: builtin.id@,
                source_digest: builtin.source_digest@,
                builtin: true,
                rule: builtin.rules@[i]@,
            },
        ) by {
            let model = SelectedModel {
                pack_id: builtin.id@,
                source_digest: builtin.source_digest@,
                builtin: true,
                rule: builtin.rules@[i]@,
            };
            if i < count - 1 {
                assert(earlier.contains(model));
                let at = choose|at: int| 0 <= at < earlier.len() && earlier[at] == model;
                assert(matches[at] == model);
            } else {
                assert(matches[matches.len() - 1] == model);
            }
        }
    }
}

/// The program has no options in front of its command that are skipped.
pub open spec fn is_simple_program(program: Seq<char>) -> bool {
    &&& program != "git"@ && program != "npm"@ && program != "pnpm"@ && program != "yarn"@
    &&& program != "bun"@ && program != "uv"@ && program != "gh"@ && program != "cargo"@
}

proof fn lemma_package_managers(program: Seq<char>)
    ensures
        one_of(program, seq!["pnpm", "yarn", "bun"]) <==> program == "pnpm"@ || program == "yarn"@
            || program == "bun"@,
{
    let words = seq!["pnpm", "yarn", "bun"];
    assert(words[0] == "pnpm" && words[1] == "yarn" && words[2] == "bun");
    if one_of(program, words) {
        let i = choose|i: int| 0 <= i < words.len() && #[trigger] words[i]@ == program;
        assert(i == 0 || i == 1 || i == 2);
    }
}

/// A rule applies to a command of a simple program if and only if the program is one of the rule's,
/// the arguments begin with the prefix of the rule, word by word, and each word that the rule
/// requires is given.
pub proof fn lemma_simple_commands_are_covered(
    matcher: MatcherModel,
    program: Seq<char>,
    rest: Seq<Seq<char>>,
)
    requires
        is_simple_program(program),
    ensures
        matcher.covers(seq![program] + rest) <==> ({
            &&& exists|i: int|
                0 <= i < matcher.program.len() && #[trigger] matcher.program[i] == program
            &&& matcher.argv_prefix.len() <= rest.len()
            &&& forall|i: int|
                0 <= i < matcher.argv_prefix.len() ==> #[trigger] matcher.argv_prefix[i] == rest[i]
            &&& forall|j: int|
                0 <= j < matcher.argv_contains_all.len() ==> exists|i: int|
                    0 <= i < rest.len() && gives_argument(
                        #[trigger] rest[i],
                        #[trigger] matcher.argv_contains_all[j],
                    )
        }),
        !matcher.covers(Seq::empty()),
{
    let arguments = seq![program] + rest;
    lemma_package_managers(program);
    let tail = arguments.subrange(1, arguments.len() as int);
    assert(tail =~= rest);
    assert(arguments[0] == program);
    assert(options_end(program, rest, 0) == Some(0int));
    assert(rest.subrange(0, rest.len() as int) =~= rest);
    assert(normalized(program, rest) == rest);
    let prefix = matcher.argv_prefix;
    if prefix.len() <= rest.len() {
        if rest.subrange(0, prefix.len() as int) == prefix {
            assert forall|i: int| 0 <= i < prefix.len() implies #[trigger] prefix[i]
                == rest[i] by {
                assert(rest.subrange(0, prefix.len() as int)[i] == prefix[i]);
            }
        }
        if forall|i: int| 0 <= i < prefix.len() ==> #[trigger] prefix[i] == rest[i] {
            assert(rest.subrange(0, prefix.len() as int) =~= prefix);
        }
    }
    if matcher.covers(arguments) {
        assert forall|j: int| 0 <= j < matcher.argv_contains_all.len() implies exists|i: int|
            0 <= i < rest.len() && gives_argument(
                #[trigger] rest[i],
                #[trigger] matcher.argv_contains_all[j],
            ) by {
            assert(some_word_gives(rest, matcher.argv_contains_all[j]));
        }
    }
    if forall|j: int|
        0 <= j < matcher.argv_contains_all.len() ==> exists|i: int|
            0 <= i < rest.len() && gives_argument(
                #[trigger] rest[i],
                #[trigger] matcher.argv_contains_all[j],
            ) {
        assert forall|j: int| 0 <= j < matcher.argv_contains_all.len() implies some_word_gives(
            rest,
            #[trigger] matcher.argv_contains_all[j],
        ) by {
            let i = choose|i: int|
                0 <= i < rest.len() && gives_argument(
                    #[trigger] rest[i],
                    matcher.argv_contains_all[j],
                );
        }
    }
}

/// The option belongs to the program itself, is followed by its value, and does not change which
/// command is run.
pub open spec fn is_program_option(program: Seq<char>, option: Seq<char>) -> bool {
    ||| program == "git"@ && (option == "-C"@ || option == "-c"@ || option == "--git-dir"@ || option
        == "--work-tree"@)
    ||| program == "npm"@ && (option == "--prefix"@ || option == "-w"@ || option == "--workspace"@)
    ||| (program == "pnpm"@ || program == "yarn"@ || program == "bun"@) && (option == "-C"@
        || option == "--dir"@ || option == "--filter"@)
    ||| program == "uv"@ && option == "--project"@
    ||| program == "gh"@ && (option == "-R"@ || option == "--repo"@)
}

proof fn lemma_programs_differ()
    ensures
        "git"@.len() == 3 && "git"@[0] == 'g',
        "npm"@.len() == 3 && "npm"@[0] == 'n',
        "pnpm"@.len() == 4 && "pnpm"@[0] == 'p',
        "yarn"@.len() == 4 && "yarn"@[0] == 'y',
        "bun"@.len() == 3 && "bun"@[0] == 'b',
        "uv"@.len() == 2 && "uv"@[0] == 'u',
        "gh"@.len() == 2 && "gh"@[0] == 'g',
        "cargo"@.len() == 5,
{
    reveal_strlit("git");
    reveal_strlit("npm");
    reveal_strlit("pnpm");
    reveal_strlit("yarn");
    reveal_strlit("bun");
    reveal_strlit("uv");
    reveal_strlit("gh");
    reveal_strlit("cargo");
}

proof fn lemma_option_takes_value(program: Seq<char>, option: Seq<char>)
    ensures
        takes_value(program, option) <==> is_program_option(program, option),
{
    lemma_programs_differ();
    lemma_package_managers(program);
    let git = seq!["-C", "-c", "--git-dir", "--work-tree"];
    let npm = seq!["--prefix", "-w", "--workspace"];
    let pnpm = seq!["-C", "--dir", "--filter"];
    let gh = seq!["-R", "--repo"];
    assert(git[0] == "-C" && git[1] == "-c" && git[2] == "--git-dir" && git[3] == "--work-tree");
    assert(npm[0] == "--prefix" && npm[1] == "-w" && npm[2] == "--workspace");
    assert(pnpm[0] == "-C" && pnpm[1] == "--dir" && pnpm[2] == "--filter");
    assert(gh[0] == "-R" && gh[1] == "--repo");
    if one_of(option, git) {
        let i = choose|i: int| 0 <= i < git.len() && #[trigger] git[i]@ == option;
        assert(i == 0 || i == 1 || i == 2 || i == 3);
    }
    if one_of(option, npm) {
        let i = choose|i: int| 0 <= i < npm.len() && #[trigger] npm[i]@ == option;
        assert(i == 0 || i == 1 || i == 2);
    }
    if one_of(option, pnpm) {
        let i = choose|i: int| 0 <= i < pnpm.len() && #[trigger] pnpm[i]@ == option;
        assert(i == 0 || i == 1 || i == 2);
    }
    if one_of(option, gh) {
        let i = choose|i: int| 0 <= i < gh.len() && #[trigger] gh[i]@ == option;
        assert(i == 0 || i == 1);
    }
}

proof fn lemma_options_end_shifts(
    program: Seq<char>,
    front: Seq<Seq<char>>,
    rest: Seq<Seq<char>>,
    index: int,
)
    requires
        0 <= index <= rest.len(),
    ensures
        options_end(program, front + rest, front.len() + index) == match options_end(
            program,
            rest,
            index,
        ) {
            Some(end) => Some(front.len() + end),
            None => None,
        },
    decreases rest.len() - index,
{
    let all = front + rest;
    if index < rest.len() {
        assert(all[front.len() + index] == rest[index]);
        if takes_value(program, rest[index]) {
            if index + 1 < rest.len() {
                lemma_options_end_shifts(program, front, rest, index + 2);
            }
        } else if stands_alone(program, rest[index]) {
            lemma_options_end_shifts(program, front, rest, index + 1);
        }
    }
}

proof fn lemma_options_end_in_range(program: Seq<char>, rest: Seq<Seq<char>>, index: int)
    requires
        0 <= index <= rest.len(),
    ensures
        options_end(program, rest, index) matches Some(end) ==> index <= end <= rest.len(),
    decreases rest.len() - index,
{
    if index < rest.len() {
        if takes_value(program, rest[index]) {
            if index + 1 < rest.len() {
                lemma_options_end_in_range(program, rest, index + 2);
            }
        } else if stands_alone(program, rest[index]) {
            lemma_options_end_in_range(program, rest, index + 1);
        }
    }
}

/// An option of the program in front of its command, with its value, does not change which rules
/// apply: `git -C DIR status` is matched as `git status` is.
pub proof fn lemma_program_options_are_skipped(
    matcher: MatcherModel,
    program: Seq<char>,
    option: Seq<char>,
    value: Seq<char>,
    rest: Seq<Seq<char>>,
)
    requires
        is_program_option(program, option),
        options_end(program, rest, 0) is Some,
    ensures
        matcher.covers(seq![program, option, value] + rest) == matcher.covers(
            seq![program] + rest,
        ),
{
    lemma_option_takes_value(program, option);
    let front = seq![option, value];
    let long = seq![program, option, value] + rest;
    let short = seq![program] + rest;
    let all = front + rest;
    assert(long.subrange(1, long.len() as int) =~= all);
    assert(short.subrange(1, short.len() as int) =~= rest);
    assert(long[0] == program && short[0] == program);
    assert(all[0] == option);
    lemma_options_end_shifts(program, front, rest, 0);
    lemma_options_end_in_range(program, rest, 0);
    assert(options_end(program, all, 0) == options_end(program, all, 2));
    let end = options_end(program, rest, 0)->0;
    assert(all.subrange(end + 2, all.len() as int) =~= rest.subrange(end, rest.len() as int));
    assert(normalized(program, all) == normalized(program, rest));
}

/// A word gives itself. A long option with a value behind an equals sign gives the option, and
/// another long option does not. A word without a hyphen gives nothing but itself.
pub proof fn lemma_words_give_options(argument: Seq<char>, required: Seq<char>, value: Seq<char>)
    ensures
        gives_argument(argument, argument),
        required.len() >= 2 && required[0] == '-' && required[1] == '-' ==> gives_argument(
            required + seq!['='] + value,
            required,
        ),
        gives_argument(argument, required) && argument != required ==> argument.len() > 0
            && argument[0] == '-',
        gives_argument(argument, required) && argument != required && argument.len() >= 2
            && argument[1] == '-' ==> argument.len() > required.len() && argument.subrange(
            0,
            required.len() as int,
        ) == required && argument[required.len() as int] == '=',
{
    reveal_strlit("--");
    reveal_strlit("=");
    let given = required + seq!['='] + value;
    if required.len() >= 2 && required[0] == '-' && required[1] == '-' {
        assert(required.subrange(0, 2) =~= "--"@);
        assert(given.subrange(0, (required + "="@).len() as int) =~= required + "="@);
    }
    let assigned = required + "="@;
    if opens_with(required, "--"@) && opens_with(argument, assigned) {
        assert(required.subrange(0, 2)[0] == "--"@[0]);
        assert(required.subrange(0, 2)[1] == "--"@[1]);
        assert(argument.subrange(0, assigned.len() as int) == assigned);
        assert(argument[0] == assigned[0]) by {
            assert(argument.subrange(0, assigned.len() as int)[0] == assigned[0]);
        }
        assert(argument[required.len() as int] == '=') by {
            assert(argument.subrange(0, assigned.len() as int)[required.len() as int] == assigned[
                required.len() as int]);
        }
        assert(argument.subrange(0, required.len() as int) =~= required) by {
            assert forall|i: int| 0 <= i < required.len() implies argument[i] == required[i] by {
                assert(argument.subrange(0, assigned.len() as int)[i] == assigned[i]);
            }
        }
    }
    if bundles_short_option(encode_utf8(argument), encode_utf8(required)) {
        lemma_first_bytes(argument);
    }
}

proof fn lemma_first_bytes(text: Seq<char>)
    requires
        encode_utf8(text).len() > 2,
        encode_utf8(text)[0] == 45,
        encode_utf8(text)[1] != 45,
    ensures
        text.len() > 0,
        text[0] == '-',
        text.len() >= 2 ==> text[1] != '-',
{
    if text.len() == 0 {
        assert(encode_utf8(text).len() == 0);
    } else {
        lemma_first_byte(text);
        if text.len() >= 2 && text[1] == '-' {
            let rest = text.drop_first();
            assert(rest[0] == '-');
            crate::text::lemma_utf8_concat(seq!['-'], rest);
            assert(seq!['-'] + rest =~= text);
            vstd::utf8::is_ascii_chars_encode_utf8(seq!['-']);
            let rest_after = rest.drop_first();
            crate::text::lemma_utf8_concat(seq!['-'], rest_after);
            assert(seq!['-'] + rest_after =~= rest);
            assert(encode_utf8(text)[1] == 45);
        }
    }
}

proof fn lemma_first_byte(text: Seq<char>)
    requires
        text.len() > 0,
        encode_utf8(text).len() > 0,
        encode_utf8(text)[0] == 45,
    ensures
        text[0] == '-',
{
    vstd::utf8::encode_utf8_first_scalar(text);
    vstd::utf8::char_is_scalar(text[0]);
    assert(45u8 & 0x7fu8 == 45u8) by (bit_vector);
    assert(vstd::utf8::decode_first_scalar(encode_utf8(text)) == 45);
    vstd::utf8::char_u32_cast(text[0], 45);
}

/// External packs with the id of the built-in pack or of one another are disabled, and so are packs
/// that share the id of a rule.
pub proof fn lemma_conflicts_disable_packs(
    builtin: BuiltinPack,
    packs: Seq<PackModel>,
    i: int,
    j: int,
    a: int,
    b: int,
)
    requires
        0 <= i < packs.len(),
        0 <= j < packs.len(),
    ensures
        packs[i].id == builtin.id@ ==> is_disabled(builtin, packs, i),
        i != j && packs[i].id == packs[j].id ==> is_disabled(builtin, packs, i) && is_disabled(
            builtin,
            packs,
            j,
        ),
        i != j && 0 <= a < packs[i].rules.len() && 0 <= b < packs[j].rules.len()
            && packs[i].rules[a].id == packs[j].rules[b].id ==> is_disabled(builtin, packs, i)
            && is_disabled(builtin, packs, j),
        0 <= a < packs[i].rules.len() && 0 <= b < builtin.rules@.len() && packs[i].rules[a].id
            == builtin.rules@[b].id@ ==> is_disabled(builtin, packs, i),
{
    use_conflicts(builtin, packs, i, j, a, b);
}

proof fn use_conflicts(
    builtin: BuiltinPack,
    packs: Seq<PackModel>,
    i: int,
    j: int,
    a: int,
    b: int,
)
    requires
        0 <= i < packs.len(),
        0 <= j < packs.len(),
    ensures
        i != j && 0 <= a < packs[i].rules.len() && 0 <= b < packs[j].rules.len()
            && packs[i].rules[a].id == packs[j].rules[b].id ==> is_disabled(builtin, packs, i)
            && is_disabled(builtin, packs, j),
        i != j && packs[i].id == packs[j].id ==> is_disabled(builtin, packs, i) && is_disabled(
            builtin,
            packs,
            j,
        ),
        0 <= a < packs[i].rules.len() && 0 <= b < builtin.rules@.len() && packs[i].rules[a].id
            == builtin.rules@[b].id@ ==> is_disabled(builtin, packs, i),
{
    if i != j && 0 <= a < packs[i].rules.len() && 0 <= b < packs[j].rules.len()
        && packs[i].rules[a].id == packs[j].rules[b].id {
        assert(rule_named(packs, j, b, packs[i].rules[a].id));
        assert(rule_named(packs, i, a, packs[j].rules[b].id));
        assert(super::registry::is_contested(builtin, packs, i, a));
        assert(super::registry::is_contested(builtin, packs, j, b));
    }
    if 0 <= a < packs[i].rules.len() && 0 <= b < builtin.rules@.len() && packs[i].rules[a].id
        == builtin.rules@[b].id@ {
        assert(builtin.has_rule(packs[i].rules[a].id));
        assert(super::registry::is_contested(builtin, packs, i, a));
    }
}

} // verus!
