//! What holds of the words in front of a command, and of the commands that prepare a shell.
use vstd::prelude::*;

use super::laws::is_ordinary_program;
use super::result_plan::has_setup_diagnostic;
use super::transforms::tee_options;
use super::words::{
    after_assignments, assigns, is_name, is_setup, may_emit, only_assignments, pipefail_of,
    unwrapped,
};
use crate::bytes::{folded, has_any_infix_folded, has_infix_folded, lit, occurs_at};
use crate::reducers::wording::{lemma_letters, lemma_word_at, word_at};
use crate::text::{one_of, opens_with};

verus! {

proof fn lemma_wrapper_names()
    ensures
        "env"@.len() == 3,
        "command"@.len() == 7 && "command"@[0] == 'c',
        "exec"@.len() == 4 && "exec"@[0] == 'e',
        "time"@.len() == 4 && "time"@[0] == 't',
        "timeout"@.len() == 7 && "timeout"@[0] == 't',
        "--"@.len() == 2 && "--"@[0] == '-' && "--"@[1] == '-',
        "-"@.len() == 1 && "-"@[0] == '-',
        one_of("command"@, seq!["command", "exec"]),
        one_of("exec"@, seq!["command", "exec"]),
        !one_of("env"@, seq!["command", "exec"]),
        !one_of("time"@, seq!["command", "exec"]),
        !one_of("timeout"@, seq!["command", "exec"]),
{
    reveal_strlit("env");
    reveal_strlit("command");
    reveal_strlit("exec");
    reveal_strlit("time");
    reveal_strlit("timeout");
    reveal_strlit("--");
    reveal_strlit("-");
    let pair = seq!["command", "exec"];
    assert(pair[0] == "command" && pair[1] == "exec");
    assert forall|text: Seq<char>| #[trigger] one_of(text, pair) implies text == "command"@ || text
        == "exec"@ by {
        let i = choose|i: int| 0 <= i < pair.len() && #[trigger] pair[i]@ == text;
        assert(i == 0 || i == 1);
    }
}

/// What a wrapper runs is what stands behind it: behind `env`, `command`, `exec` and `time`, and
/// behind the duration of `timeout`. A dash in front of it stands for an option, which is not read.
pub proof fn lemma_wrappers_are_seen_through(words: Seq<Seq<char>>, duration: Seq<char>)
    requires
        words.len() > 0,
        is_ordinary_program(words[0]),
        words[0] != "--"@,
        words[0].len() > 0 && words[0][0] != '-',
        duration.len() > 0 && duration[0] != '-',
    ensures
        unwrapped(words) == words,
        unwrapped(seq!["env"@] + words) == words,
        unwrapped(seq!["command"@] + words) == words,
        unwrapped(seq!["exec"@] + words) == words,
        unwrapped(seq!["time"@] + words) == words,
        unwrapped(seq!["timeout"@, duration] + words) == words,
{
    lemma_wrapper_names();
    super::laws::lemma_ordinary_words(words);
    let env = seq!["env"@] + words;
    assert(env[0] == "env"@ && env.drop_first() =~= words);
    let command = seq!["command"@] + words;
    assert(command[0] == "command"@ && command.drop_first() =~= words);
    let exec = seq!["exec"@] + words;
    assert(exec[0] == "exec"@ && exec.drop_first() =~= words);
    let time = seq!["time"@] + words;
    assert(time[0] == "time"@ && time[1] == words[0] && time.drop_first() =~= words);
    if opens_with(words[0], "-"@) {
        assert(words[0].subrange(0, 1)[0] == words[0][0]);
    }
    let timeout = seq!["timeout"@, duration] + words;
    assert(timeout[0] == "timeout"@ && timeout[1] == duration && timeout.skip(2) =~= words);
    if opens_with(duration, "-"@) {
        assert(duration.subrange(0, 1)[0] == duration[0]);
    }
    let pair = seq!["command", "exec"];
    if one_of(words[0], pair) {
        let i = choose|i: int| 0 <= i < pair.len() && #[trigger] pair[i]@ == words[0];
        assert(i == 0 || i == 1);
    }
}

/// Assignments in front of a command are set aside, and only they are.
pub proof fn lemma_assignments_are_set_aside(
    name: Seq<char>,
    value: Seq<char>,
    words: Seq<Seq<char>>,
)
    requires
        is_name(name),
        words.len() > 0,
        is_ordinary_program(words[0]),
    ensures
        assigns(name + seq!['='] + value),
        after_assignments(seq![name + seq!['='] + value] + words) == words,
        after_assignments(words) == words,
        name[0] == '_' || 'a' <= name[0] <= 'z' || 'A' <= name[0] <= 'Z',
        forall|i: int|
            0 <= i < name.len() ==> #[trigger] name[i] == '_' || 'a' <= name[i] <= 'z' || 'A'
                <= name[i] <= 'Z' || '0' <= name[i] <= '9',
{
    super::laws::lemma_ordinary_words(words);
    let word = name + seq!['='] + value;
    let at = name.len() as int;
    assert(word[at] == '=');
    assert(word.take(at) =~= name);
    let all = seq![word] + words;
    assert(all[0] == word && all.drop_first() =~= words);
}

/// A command that prepares a shell prints nothing when it succeeds. An option of `set` is one letter
/// behind a sign, and neither `x` nor `v`, which print. A directory or a mask does not begin with a
/// dash. One word alone is `:`, `true` or `false`.
pub proof fn lemma_printing_commands_prepare_nothing(word: Seq<char>)
    ensures
        is_setup(seq!["set"@, word]) ==> word.len() == 2 && (word[0] == '-' || word[0] == '+')
            && word[1] != 'x' && word[1] != 'v',
        is_setup(seq!["cd"@, word]) <==> word.len() == 0 || word[0] != '-',
        is_setup(seq!["umask"@, word]) <==> word.len() == 0 || word[0] != '-',
        is_setup(seq![word]) <==> word == ":"@ || word == "true"@ || word == "false"@,
{
    reveal_strlit("set");
    reveal_strlit("cd");
    reveal_strlit("export");
    reveal_strlit("umask");
    reveal_strlit("-");
    let quiet = seq![
        "-e", "+e", "-u", "+u", "-f", "+f", "-C", "+C", "-m", "+m", "-b", "+b", "-n", "+n", "-E",
        "+E", "-T", "+T", "-P", "+P", "-h", "+h", "-k", "+k", "-p", "+p",
    ];
    lemma_quiet_options(quiet);
    assert("set"@[0] == 's' && "cd"@[0] == 'c' && "export"@[0] == 'e' && "umask"@[0] == 'u');
    let set = seq!["set"@, word];
    assert(set.len() == 2 && set[0] == "set"@ && set[1] == word);
    if is_setup(set) {
        let i = choose|i: int| 0 <= i < quiet.len() && #[trigger] quiet[i]@ == word;
        assert(quiet[i]@[1] != 'x');
    }
    let cd = seq!["cd"@, word];
    assert(cd.len() == 2 && cd[0] == "cd"@ && cd[1] == word);
    let umask = seq!["umask"@, word];
    assert(umask.len() == 2 && umask[0] == "umask"@ && umask[1] == word);
    if word.len() > 0 {
        assert(word.subrange(0, 1)[0] == word[0]);
        if word[0] == '-' {
            assert(word.subrange(0, 1) =~= "-"@);
        }
    }
    let alone = seq![word];
    assert(alone.len() == 1 && alone[0] == word);
    let words = seq![":", "true", "false"];
    assert(words[0] == ":" && words[1] == "true" && words[2] == "false");
    if one_of(word, words) {
        let i = choose|i: int| 0 <= i < words.len() && #[trigger] words[i]@ == word;
        assert(i == 0 || i == 1 || i == 2);
    }
}

proof fn lemma_quiet_options(quiet: Seq<&str>)
    requires
        quiet == seq![
            "-e", "+e", "-u", "+u", "-f", "+f", "-C", "+C", "-m", "+m", "-b", "+b", "-n", "+n",
            "-E", "+E", "-T", "+T", "-P", "+P", "-h", "+h", "-k", "+k", "-p", "+p",
        ],
    ensures
        forall|i: int|
            0 <= i < quiet.len() ==> #[trigger] quiet[i]@.len() == 2 && (quiet[i]@[0] == '-'
                || quiet[i]@[0] == '+') && quiet[i]@[1] != 'x' && quiet[i]@[1] != 'v',
{
    reveal_strlit("-e");
    reveal_strlit("+e");
    reveal_strlit("-u");
    reveal_strlit("+u");
    reveal_strlit("-f");
    reveal_strlit("+f");
    reveal_strlit("-C");
    reveal_strlit("+C");
    reveal_strlit("-m");
    reveal_strlit("+m");
    reveal_strlit("-b");
    reveal_strlit("+b");
    reveal_strlit("-n");
    reveal_strlit("+n");
    reveal_strlit("-E");
    reveal_strlit("+E");
    reveal_strlit("-T");
    reveal_strlit("+T");
    reveal_strlit("-P");
    reveal_strlit("+P");
    reveal_strlit("-h");
    reveal_strlit("+h");
    reveal_strlit("-k");
    reveal_strlit("+k");
    reveal_strlit("-p");
    reveal_strlit("+p");
    assert forall|i: int| 0 <= i < quiet.len() implies #[trigger] quiet[i]@.len() == 2 && (
    quiet[i]@[0] == '-' || quiet[i]@[0] == '+') && quiet[i]@[1] != 'x' && quiet[i]@[1] != 'v' by {
        assert(i == 0 || i == 1 || i == 2 || i == 3 || i == 4 || i == 5 || i == 6 || i == 7 || i
            == 8 || i == 9 || i == 10 || i == 11 || i == 12 || i == 13 || i == 14 || i == 15 || i
            == 16 || i == 17 || i == 18 || i == 19 || i == 20 || i == 21 || i == 22 || i == 23 || i
            == 24 || i == 25);
    }
}

/// `set -o pipefail` turns the failure of any stage into one of the pipeline, `set +o pipefail`
/// turns that off, and nothing else says anything about it.
pub proof fn lemma_pipefail_is_set(words: Seq<Seq<char>>)
    ensures
        pipefail_of(words) == Some(true) <==> words == seq!["set"@, "-o"@, "pipefail"@],
        pipefail_of(words) == Some(false) <==> words == seq!["set"@, "+o"@, "pipefail"@],
{
    reveal_strlit("-o");
    reveal_strlit("+o");
    let on = seq!["set"@, "-o"@, "pipefail"@];
    assert(on[0] == "set"@ && on[1] == "-o"@ && on[2] == "pipefail"@);
    let off = seq!["set"@, "+o"@, "pipefail"@];
    assert(off[0] == "set"@ && off[1] == "+o"@ && off[2] == "pipefail"@);
    assert("-o"@[0] == '-' && "+o"@[0] == '+');
    if pipefail_of(words) == Some(true) {
        assert(words =~= on);
    }
    if pipefail_of(words) == Some(false) {
        assert(words =~= off);
    }
}

/// An option of `tee` that does not change what goes through it.
pub open spec fn is_harmless_for_tee(option: Seq<char>) -> bool {
    ||| option == "-a"@ || option == "-i"@ || option == "-p"@ || option == "--append"@
    ||| option == "--ignore-interrupts"@ || option == "--output-error"@
    ||| option.len() >= 15 && option.take(15) == "--output-error="@
}

/// The first argument of `tee` is such an option, or names no option at all.
pub proof fn lemma_options_of_tee(arguments: Seq<Seq<char>>)
    requires
        arguments.len() > 0,
        tee_options(arguments, 0),
    ensures
        is_harmless_for_tee(arguments[0]) || arguments[0] == "-"@ || arguments[0] == "--"@
            || arguments[0].len() == 0 || arguments[0][0] != '-',
{
    let first = arguments[0];
    reveal_strlit("-");
    reveal_strlit("--output-error=");
    let options = seq!["-a", "-i", "-p", "--append", "--ignore-interrupts", "--output-error"];
    if one_of(first, options) {
        let i = choose|i: int| 0 <= i < options.len() && #[trigger] options[i]@ == first;
        assert(i == 0 || i == 1 || i == 2 || i == 3 || i == 4 || i == 5);
    }
    if opens_with(first, "--output-error="@) {
        assert(first.take(15) =~= "--output-error="@);
    }
    if first.len() > 0 && first[0] == '-' {
        assert(first.subrange(0, 1) =~= "-"@);
    }
}

/// A word stands somewhere in the output, up to ASCII case.
pub open spec fn tells_of(output: Seq<u8>, word: &str) -> bool {
    exists|at: int| #[trigger] word_at(output, lit(word), at)
}

proof fn lemma_told(output: Seq<u8>, word: &str)
    requires
        word@.len() > 0,
        vstd::utf8::is_ascii_chars(word@),
    ensures
        tells_of(output, word) <==> has_infix_folded(output, lit(word)),
{
    lemma_letters(output, word);
    if tells_of(output, word) {
        let at = choose|at: int| #[trigger] word_at(output, lit(word), at);
        lemma_word_at(output, lit(word), at);
    }
    if has_infix_folded(output, lit(word)) {
        let at = choose|at: int| #[trigger] occurs_at(folded(output), folded(lit(word)), at);
        lemma_word_at(output, lit(word), at);
    }
}

/// A failed command of setup is told by what shells print of it.
pub proof fn lemma_failed_setup_is_told(output: Seq<u8>)
    ensures
        has_setup_diagnostic(output) <==> {
            ||| tells_of(output, "cd:")
            ||| tells_of(output, "umask:")
            ||| tells_of(output, "export:")
            ||| tells_of(output, "readonly variable")
            ||| tells_of(output, "not a valid identifier")
        },
{
    reveal_strlit("cd:");
    reveal_strlit("umask:");
    reveal_strlit("export:");
    reveal_strlit("readonly variable");
    reveal_strlit("not a valid identifier");
    lemma_told(output, "cd:");
    lemma_told(output, "umask:");
    lemma_told(output, "export:");
    lemma_told(output, "readonly variable");
    lemma_told(output, "not a valid identifier");
    let words = seq!["cd:", "umask:", "export:", "readonly variable", "not a valid identifier"];
    assert(words[0] == "cd:" && words[1] == "umask:" && words[2] == "export:" && words[3]
        == "readonly variable" && words[4] == "not a valid identifier");
    if has_any_infix_folded(output, words) {
        let i = choose|i: int|
            0 <= i < words.len() && has_infix_folded(output, lit(#[trigger] words[i]));
        assert(i == 0 || i == 1 || i == 2 || i == 3 || i == 4);
    }
}

/// A change of directory, an export, a mask and an assignment may print a problem; nothing else that
/// prepares a shell does.
pub proof fn lemma_setup_that_may_print(words: Seq<Seq<char>>)
    requires
        words.len() > 0,
        !only_assignments(words),
    ensures
        may_emit(words) <==> words[0] == "cd"@ || words[0] == "export"@ || words[0] == "umask"@,
{
    let names = seq!["cd", "export", "umask"];
    assert(names[0] == "cd" && names[1] == "export" && names[2] == "umask");
    if one_of(words[0], names) {
        let i = choose|i: int| 0 <= i < names.len() && #[trigger] names[i]@ == words[0];
        assert(i == 0 || i == 1 || i == 2);
    }
}

} // verus!
