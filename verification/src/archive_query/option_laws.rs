//! What each option of a search does.
use vstd::prelude::*;

use super::arguments::{OptionsModel, SearchArguments, is_pattern_size, search_options, takes_value};
use crate::text::{digits, lemma_digits_round_trip, one_of};

verus! {

/// None of the arguments is one of these words.
pub open spec fn has_none_of(arguments: Seq<Seq<char>>, words: Seq<&str>) -> bool {
    forall|i: int, j: int|
        0 <= i < arguments.len() && 0 <= j < words.len() ==> #[trigger] arguments[i]
            != (#[trigger] words[j])@
}

proof fn lemma_one_of_two(text: Seq<char>, first: &str, second: &str)
    ensures
        one_of(text, seq![first, second]) <==> text == first@ || text == second@,
{
    let words = seq![first, second];
    assert(words[0] == first && words[1] == second);
    if one_of(text, words) {
        let i = choose|i: int| 0 <= i < words.len() && #[trigger] words[i]@ == text;
        assert(i == 0 || i == 1);
    }
}

/// The words that a search knows, by their lengths and letters.
proof fn lemma_words()
    ensures
        "--"@ =~= seq!['-', '-'],
        "-F"@ =~= seq!['-', 'F'],
        "-i"@ =~= seq!['-', 'i'],
        "-w"@ =~= seq!['-', 'w'],
        "-v"@ =~= seq!['-', 'v'],
        "-e"@ =~= seq!['-', 'e'],
        "-A"@ =~= seq!['-', 'A'],
        "-B"@ =~= seq!['-', 'B'],
        "-C"@ =~= seq!['-', 'C'],
        "-m"@ =~= seq!['-', 'm'],
        "--fixed-strings"@.len() == 15 && "--fixed-strings"@[2] == 'f',
        "--ignore-case"@.len() == 13 && "--ignore-case"@[2] == 'i',
        "--word-regexp"@.len() == 13 && "--word-regexp"@[2] == 'w',
        "--invert-match"@.len() == 14 && "--invert-match"@[2] == 'i',
        "--regexp"@.len() == 8 && "--regexp"@[2] == 'r',
        "--after-context"@.len() == 15 && "--after-context"@[2] == 'a',
        "--before-context"@.len() == 16 && "--before-context"@[2] == 'b',
        "--context"@.len() == 9 && "--context"@[2] == 'c',
        "--max-results"@.len() == 13 && "--max-results"@[2] == 'm',
        "-"@ =~= seq!['-'],
{
    reveal_strlit("--");
    reveal_strlit("-F");
    reveal_strlit("-i");
    reveal_strlit("-w");
    reveal_strlit("-v");
    reveal_strlit("-e");
    reveal_strlit("-A");
    reveal_strlit("-B");
    reveal_strlit("-C");
    reveal_strlit("-m");
    reveal_strlit("-");
    reveal_strlit("--fixed-strings");
    reveal_strlit("--ignore-case");
    reveal_strlit("--word-regexp");
    reveal_strlit("--invert-match");
    reveal_strlit("--regexp");
    reveal_strlit("--after-context");
    reveal_strlit("--before-context");
    reveal_strlit("--context");
    reveal_strlit("--max-results");
}

proof fn lemma_takes_value(argument: Seq<char>)
    ensures
        takes_value(argument) <==> ({
            ||| argument == "-e"@ || argument == "--regexp"@
            ||| argument == "-A"@ || argument == "--after-context"@
            ||| argument == "-B"@ || argument == "--before-context"@
            ||| argument == "-C"@ || argument == "--context"@
            ||| argument == "-m"@ || argument == "--max-results"@
        }),
{
    let words = seq![
        "-e",
        "--regexp",
        "-A",
        "--after-context",
        "-B",
        "--before-context",
        "-C",
        "--context",
        "-m",
        "--max-results",
    ];
    if one_of(argument, words) {
        let i = choose|i: int| 0 <= i < words.len() && #[trigger] words[i]@ == argument;
        assert(i == 0 ==> words[i] == "-e");
        assert(i == 1 ==> words[i] == "--regexp");
        assert(i == 2 ==> words[i] == "-A");
        assert(i == 3 ==> words[i] == "--after-context");
        assert(i == 4 ==> words[i] == "-B");
        assert(i == 5 ==> words[i] == "--before-context");
        assert(i == 6 ==> words[i] == "-C");
        assert(i == 7 ==> words[i] == "--context");
        assert(i == 8 ==> words[i] == "-m");
        assert(i == 9 ==> words[i] == "--max-results");
    }
    assert(words[0] == "-e" && words[1] == "--regexp" && words[2] == "-A");
    assert(words[3] == "--after-context" && words[4] == "-B" && words[5] == "--before-context");
    assert(words[6] == "-C" && words[7] == "--context" && words[8] == "-m");
    assert(words[9] == "--max-results");
}

/// What follows some arguments is read as it is alone, from where they left off.
proof fn lemma_more_arguments(
    state: SearchArguments,
    arguments: Seq<Seq<char>>,
    more: Seq<Seq<char>>,
    index: int,
)
    requires
        0 <= index <= arguments.len(),
        state.with_arguments(arguments, index) is Ok,
    ensures
        state.with_arguments(arguments + more, index) == state.with_arguments(
            arguments,
            index,
        )->Ok_0.with_arguments(arguments + more, arguments.len() as int),
    decreases arguments.len() - index,
{
    if index < arguments.len() {
        let all = arguments + more;
        let argument = arguments[index];
        assert(all[index] == argument);
        if state.end_options {
            lemma_more_arguments(
                SearchArguments { positional: state.positional.push(argument), ..state },
                arguments,
                more,
                index + 1,
            );
        } else if argument == "--"@ {
            lemma_more_arguments(
                SearchArguments { end_options: true, ..state },
                arguments,
                more,
                index + 1,
            );
        } else if one_of(argument, seq!["-F", "--fixed-strings"]) {
            lemma_more_arguments(
                SearchArguments { fixed: true, ..state },
                arguments,
                more,
                index + 1,
            );
        } else if one_of(argument, seq!["-i", "--ignore-case"]) {
            lemma_more_arguments(
                SearchArguments { ignore_case: true, ..state },
                arguments,
                more,
                index + 1,
            );
        } else if one_of(argument, seq!["-w", "--word-regexp"]) {
            lemma_more_arguments(
                SearchArguments { word: true, ..state },
                arguments,
                more,
                index + 1,
            );
        } else if one_of(argument, seq!["-v", "--invert-match"]) {
            lemma_more_arguments(
                SearchArguments { invert: true, ..state },
                arguments,
                more,
                index + 1,
            );
        } else if takes_value(argument) {
            assert(all[index + 1] == arguments[index + 1]);
            lemma_more_arguments(
                state.with_option(argument, arguments[index + 1])->Ok_0,
                arguments,
                more,
                index + 2,
            );
        } else {
            lemma_more_arguments(
                SearchArguments { positional: state.positional.push(argument), ..state },
                arguments,
                more,
                index + 1,
            );
        }
    }
}

/// What was not given is not set.
proof fn lemma_not_given(state: SearchArguments, arguments: Seq<Seq<char>>, index: int)
    requires
        0 <= index <= arguments.len(),
        state.with_arguments(arguments, index) is Ok,
    ensures
        ({
            let read = state.with_arguments(arguments, index)->Ok_0;
            &&& has_none_of(arguments, seq!["--"]) && !state.end_options ==> !read.end_options
            &&& has_none_of(arguments, seq!["-A", "--after-context", "-C", "--context"])
                && state.after is None ==> read.after is None
            &&& has_none_of(arguments, seq!["-B", "--before-context", "-C", "--context"])
                && state.before is None ==> read.before is None
            &&& has_none_of(arguments, seq!["-m", "--max-results"]) && state.max_results is None
                ==> read.max_results is None
        }),
    decreases arguments.len() - index,
{
    if index < arguments.len() {
        let argument = arguments[index];
        let ends = seq!["--"];
        let after = seq!["-A", "--after-context", "-C", "--context"];
        let before = seq!["-B", "--before-context", "-C", "--context"];
        let limit = seq!["-m", "--max-results"];
        assert(ends[0] == "--");
        assert(after[0] == "-A" && after[1] == "--after-context" && after[2] == "-C" && after[3]
            == "--context");
        assert(before[0] == "-B" && before[1] == "--before-context" && before[2] == "-C"
            && before[3] == "--context");
        assert(limit[0] == "-m" && limit[1] == "--max-results");
        lemma_takes_value(argument);
        lemma_one_of_two(argument, "-e", "--regexp");
        lemma_one_of_two(argument, "-A", "--after-context");
        lemma_one_of_two(argument, "-B", "--before-context");
        lemma_one_of_two(argument, "-C", "--context");
        if state.end_options {
            lemma_not_given(
                SearchArguments { positional: state.positional.push(argument), ..state },
                arguments,
                index + 1,
            );
        } else if argument == "--"@ {
            lemma_not_given(SearchArguments { end_options: true, ..state }, arguments, index + 1);
        } else if one_of(argument, seq!["-F", "--fixed-strings"]) {
            lemma_not_given(SearchArguments { fixed: true, ..state }, arguments, index + 1);
        } else if one_of(argument, seq!["-i", "--ignore-case"]) {
            lemma_not_given(SearchArguments { ignore_case: true, ..state }, arguments, index + 1);
        } else if one_of(argument, seq!["-w", "--word-regexp"]) {
            lemma_not_given(SearchArguments { word: true, ..state }, arguments, index + 1);
        } else if one_of(argument, seq!["-v", "--invert-match"]) {
            lemma_not_given(SearchArguments { invert: true, ..state }, arguments, index + 1);
        } else if takes_value(argument) {
            lemma_not_given(
                state.with_option(argument, arguments[index + 1])->Ok_0,
                arguments,
                index + 2,
            );
        } else {
            lemma_not_given(
                SearchArguments { positional: state.positional.push(argument), ..state },
                arguments,
                index + 1,
            );
        }
    }
}

proof fn lemma_one_flag(read: SearchArguments, all: Seq<Seq<char>>)
    requires
        all.len() > 0,
        !read.end_options,
    ensures
        ({
            let flag = all.last();
            let after = read.with_arguments(all, all.len() - 1);
            &&& flag == "-v"@ || flag == "--invert-match"@ ==> after == Ok::<
                SearchArguments,
                Seq<char>,
            >(SearchArguments { invert: true, ..read })
            &&& flag == "-i"@ || flag == "--ignore-case"@ ==> after == Ok::<
                SearchArguments,
                Seq<char>,
            >(SearchArguments { ignore_case: true, ..read })
            &&& flag == "-w"@ || flag == "--word-regexp"@ ==> after == Ok::<
                SearchArguments,
                Seq<char>,
            >(SearchArguments { word: true, ..read })
            &&& flag == "-F"@ || flag == "--fixed-strings"@ ==> after == Ok::<
                SearchArguments,
                Seq<char>,
            >(SearchArguments { fixed: true, ..read })
        }),
{
    reveal_with_fuel(SearchArguments::with_arguments, 2);
    let flag = all.last();
    lemma_words();
    lemma_one_of_two(flag, "-F", "--fixed-strings");
    lemma_one_of_two(flag, "-i", "--ignore-case");
    lemma_one_of_two(flag, "-w", "--word-regexp");
    lemma_one_of_two(flag, "-v", "--invert-match");
}

/// A flag at the end of the arguments of a search sets what it names and nothing else: `-v` inverts
/// the selection, `-i` ignores case, `-w` asks for whole words, and `-F` takes patterns as text.
pub proof fn lemma_flag_sets_one_thing(arguments: Seq<Seq<char>>, flag: Seq<char>)
    requires
        search_options(arguments) is Ok,
        has_none_of(arguments, seq!["--"]),
    ensures
        ({
            let before = search_options(arguments)->Ok_0;
            let after = search_options(arguments.push(flag));
            &&& flag == "-v"@ || flag == "--invert-match"@ ==> after == Ok::<
                OptionsModel,
                Seq<char>,
            >(OptionsModel { invert: true, ..before })
            &&& flag == "-i"@ || flag == "--ignore-case"@ ==> after == Ok::<
                OptionsModel,
                Seq<char>,
            >(OptionsModel { ignore_case: true, ..before })
            &&& flag == "-w"@ || flag == "--word-regexp"@ ==> after == Ok::<
                OptionsModel,
                Seq<char>,
            >(OptionsModel { word: true, ..before })
            &&& flag == "-F"@ || flag == "--fixed-strings"@ ==> after == Ok::<
                OptionsModel,
                Seq<char>,
            >(OptionsModel { fixed: true, ..before })
        }),
{
    let fresh = SearchArguments::fresh();
    let read = fresh.with_arguments(arguments, 0)->Ok_0;
    let all = arguments + seq![flag];
    assert(all =~= arguments.push(flag));
    lemma_more_arguments(fresh, arguments, seq![flag], 0);
    lemma_not_given(fresh, arguments, 0);
    lemma_one_flag(read, all);
}

proof fn lemma_one_option(
    read: SearchArguments,
    all: Seq<Seq<char>>,
    option: Seq<char>,
    count: usize,
)
    requires
        all.len() >= 2,
        all[all.len() - 2] == option,
        all.last() == digits(count as nat),
        !read.end_options,
        takes_value(option),
        option != "-e"@ && option != "--regexp"@,
    ensures
        ({
            let after = read.with_arguments(all, all.len() - 2);
            &&& option == "-A"@ || option == "--after-context"@ ==> {
                &&& after matches Ok(set) ==> count <= 50 && set == (SearchArguments {
                    after: Some(count),
                    ..read
                })
                &&& count <= 50 && read.after is None ==> after is Ok
            }
            &&& option == "-B"@ || option == "--before-context"@ ==> {
                &&& after matches Ok(set) ==> count <= 50 && set == (SearchArguments {
                    before: Some(count),
                    ..read
                })
                &&& count <= 50 && read.before is None ==> after is Ok
            }
            &&& option == "-C"@ || option == "--context"@ ==> {
                &&& after matches Ok(set) ==> count <= 50 && set == (SearchArguments {
                    before: Some(count),
                    after: Some(count),
                    ..read
                })
                &&& count <= 50 && read.before is None && read.after is None ==> after is Ok
            }
            &&& option == "-m"@ || option == "--max-results"@ ==> {
                &&& after matches Ok(set) ==> 1 <= count <= 100 && set == (SearchArguments {
                    max_results: Some(count),
                    ..read
                })
                &&& 1 <= count <= 100 && read.max_results is None ==> after is Ok
            }
        }),
{
    reveal_with_fuel(SearchArguments::with_arguments, 2);
    lemma_words();
    lemma_takes_value(option);
    lemma_digits_round_trip(count as nat);
    lemma_one_of_two(option, "-F", "--fixed-strings");
    lemma_one_of_two(option, "-i", "--ignore-case");
    lemma_one_of_two(option, "-w", "--word-regexp");
    lemma_one_of_two(option, "-v", "--invert-match");
    lemma_one_of_two(option, "-e", "--regexp");
    lemma_one_of_two(option, "-A", "--after-context");
    lemma_one_of_two(option, "-B", "--before-context");
    lemma_one_of_two(option, "-C", "--context");
    assert(all[all.len() - 2 + 1] == all.last());
}

/// An option with a count at the end of the arguments of a search sets what it names and nothing
/// else: `-A` the lines after a match, `-B` those before it, `-C` both, and `-m` how many matches
/// are shown. It is accepted within its bounds, where it was not given before.
pub proof fn lemma_count_sets_one_thing(
    arguments: Seq<Seq<char>>,
    option: Seq<char>,
    count: usize,
)
    requires
        search_options(arguments) is Ok,
        has_none_of(arguments, seq!["--"]),
    ensures
        ({
            let before = search_options(arguments)->Ok_0;
            let after = search_options(arguments.push(option).push(digits(count as nat)));
            &&& option == "-A"@ || option == "--after-context"@ ==> {
                &&& after matches Ok(options) ==> count <= 50 && options == (OptionsModel {
                    after: count as nat,
                    ..before
                })
                &&& count <= 50 && has_none_of(
                    arguments,
                    seq!["-A", "--after-context", "-C", "--context"],
                ) ==> after is Ok
            }
            &&& option == "-B"@ || option == "--before-context"@ ==> {
                &&& after matches Ok(options) ==> count <= 50 && options == (OptionsModel {
                    before: count as nat,
                    ..before
                })
                &&& count <= 50 && has_none_of(
                    arguments,
                    seq!["-B", "--before-context", "-C", "--context"],
                ) ==> after is Ok
            }
            &&& option == "-C"@ || option == "--context"@ ==> (after matches Ok(options) ==> count
                <= 50 && options == (OptionsModel {
                before: count as nat,
                after: count as nat,
                ..before
            }))
            &&& option == "-m"@ || option == "--max-results"@ ==> {
                &&& after matches Ok(options) ==> 1 <= count <= 100 && options == (OptionsModel {
                    max_results: count as nat,
                    ..before
                })
                &&& 1 <= count <= 100 && has_none_of(arguments, seq!["-m", "--max-results"])
                    ==> after is Ok
            }
        }),
{
    let fresh = SearchArguments::fresh();
    let read = fresh.with_arguments(arguments, 0)->Ok_0;
    let more = seq![option, digits(count as nat)];
    let all = arguments + more;
    assert(all =~= arguments.push(option).push(digits(count as nat)));
    lemma_more_arguments(fresh, arguments, more, 0);
    lemma_not_given(fresh, arguments, 0);
    lemma_takes_value(option);
    lemma_words();
    if takes_value(option) && option != "-e"@ && option != "--regexp"@ {
        lemma_one_option(read, all, option, count);
    }
}

/// A search for one pattern has two lines of context on either side, shows twenty matches, and
/// respects case; the pattern is an expression.
pub proof fn lemma_plain_search(archive_ref: Seq<char>, pattern: Seq<char>)
    requires
        archive_ref.len() > 0 && archive_ref[0] != '-',
        pattern.len() > 0 && pattern[0] != '-',
        is_pattern_size(pattern),
    ensures
        search_options(seq![archive_ref, pattern]) == Ok::<OptionsModel, Seq<char>>(
            OptionsModel {
                archive_ref,
                patterns: seq![pattern],
                fixed: false,
                ignore_case: false,
                word: false,
                invert: false,
                before: 2,
                after: 2,
                max_results: 20,
            },
        ),
{
    reveal_with_fuel(SearchArguments::with_arguments, 3);
    lemma_words();
    lemma_positional(archive_ref);
    lemma_positional(pattern);
    let arguments = seq![archive_ref, pattern];
    let read = SearchArguments::fresh().with_arguments(arguments, 0)->Ok_0;
    assert(read.positional =~= arguments);
    assert(read.all_patterns() =~= seq![pattern]);
}

proof fn lemma_positional(argument: Seq<char>)
    requires
        argument.len() > 0 && argument[0] != '-',
    ensures
        argument != "--"@,
        !one_of(argument, seq!["-F", "--fixed-strings"]),
        !one_of(argument, seq!["-i", "--ignore-case"]),
        !one_of(argument, seq!["-w", "--word-regexp"]),
        !one_of(argument, seq!["-v", "--invert-match"]),
        !takes_value(argument),
        !crate::text::opens_with(argument, "-"@),
{
    lemma_words();
    reveal_strlit("--fixed-strings");
    reveal_strlit("--ignore-case");
    reveal_strlit("--word-regexp");
    reveal_strlit("--invert-match");
    reveal_strlit("--regexp");
    reveal_strlit("--after-context");
    reveal_strlit("--before-context");
    reveal_strlit("--context");
    reveal_strlit("--max-results");
    lemma_takes_value(argument);
    lemma_one_of_two(argument, "-F", "--fixed-strings");
    lemma_one_of_two(argument, "-i", "--ignore-case");
    lemma_one_of_two(argument, "-w", "--word-regexp");
    lemma_one_of_two(argument, "-v", "--invert-match");
    assert("--fixed-strings"@[0] == '-' && "--ignore-case"@[0] == '-' && "--word-regexp"@[0] == '-');
    assert("--invert-match"@[0] == '-' && "--regexp"@[0] == '-' && "--after-context"@[0] == '-');
    assert("--before-context"@[0] == '-' && "--context"@[0] == '-' && "--max-results"@[0] == '-');
    assert(crate::text::opens_with(argument, "-"@) ==> argument.subrange(0, 1)[0] == "-"@[0]);
}

} // verus!
