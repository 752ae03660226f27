//! The arguments of a search.
use vstd::prelude::*;
use vstd::utf8::encode_utf8;

use crate::text::{
    canonical_number, decimal, digits, is_canonical_number, is_one_of, join2, join3, join4, number, one_of, parse_number, quoted, same_text, starts_with, texts,
};

verus! {

/// What a search asks for.
#[derive(Clone, Debug)]
pub struct SearchOptions {
    pub archive_ref: String,
    pub patterns: Vec<String>,
    pub fixed: bool,
    pub ignore_case: bool,
    pub word: bool,
    pub invert: bool,
    pub before: usize,
    pub after: usize,
    pub max_results: usize,
}

/// The contents of [`SearchOptions`].
#[verifier::ext_equal]
pub struct OptionsModel {
    pub archive_ref: Seq<char>,
    pub patterns: Seq<Seq<char>>,
    pub fixed: bool,
    pub ignore_case: bool,
    pub word: bool,
    pub invert: bool,
    pub before: nat,
    pub after: nat,
    pub max_results: nat,
}

impl View for SearchOptions {
    type V = OptionsModel;

    open spec fn view(&self) -> OptionsModel {
        OptionsModel {
            archive_ref: self.archive_ref@,
            patterns: texts(self.patterns@),
            fixed: self.fixed,
            ignore_case: self.ignore_case,
            word: self.word,
            invert: self.invert,
            before: self.before as nat,
            after: self.after as nat,
            max_results: self.max_results as nat,
        }
    }
}

/// The arguments that were read so far.
#[verifier::ext_equal]
pub struct SearchArguments {
    pub positional: Seq<Seq<char>>,
    pub patterns: Seq<Seq<char>>,
    pub fixed: bool,
    pub ignore_case: bool,
    pub word: bool,
    pub invert: bool,
    pub before: Option<usize>,
    pub after: Option<usize>,
    pub max_results: Option<usize>,
    pub end_options: bool,
}

/// Read a count within bounds.
pub open spec fn count_in(value: Seq<char>, minimum: nat, maximum: nat) -> Result<usize, Seq<char>> {
    if !is_canonical_number(value) {
        Err("invalid canonical unsigned count "@ + crate::text::debug_form(value))
    } else if number(value) > usize::MAX {
        Err("count "@ + crate::text::debug_form(value) + " is outside the supported range"@)
    } else if !(minimum <= number(value) <= maximum) {
        Err("count must be between "@ + digits(minimum) + " and "@ + digits(maximum))
    } else {
        Ok(number(value) as usize)
    }
}

/// The value of an option that may be given again with the same value only.
pub open spec fn consistent(current: Option<usize>, value: usize, label: Seq<char>) -> Result<
    Option<usize>,
    Seq<char>,
> {
    if current is Some && current != Some(value) {
        Err("conflicting "@ + label + " values"@)
    } else {
        Ok(Some(value))
    }
}

impl SearchArguments {
    /// No arguments yet.
    pub open spec fn fresh() -> SearchArguments {
        SearchArguments {
            positional: Seq::empty(),
            patterns: Seq::empty(),
            fixed: false,
            ignore_case: false,
            word: false,
            invert: false,
            before: None,
            after: None,
            max_results: None,
            end_options: false,
        }
    }

    /// The arguments after an option with its value.
    pub open spec fn with_option(self, option: Seq<char>, value: Seq<char>) -> Result<
        SearchArguments,
        Seq<char>,
    > {
        if one_of(option, seq!["-e", "--regexp"]) {
            Ok(SearchArguments { patterns: self.patterns.push(value), ..self })
        } else if one_of(option, seq!["-A", "--after-context"]) {
            match count_in(value, 0, 50) {
                Err(fault) => Err(fault),
                Ok(count) => match consistent(self.after, count, "after-context"@) {
                    Err(fault) => Err(fault),
                    Ok(after) => Ok(SearchArguments { after, ..self }),
                },
            }
        } else if one_of(option, seq!["-B", "--before-context"]) {
            match count_in(value, 0, 50) {
                Err(fault) => Err(fault),
                Ok(count) => match consistent(self.before, count, "before-context"@) {
                    Err(fault) => Err(fault),
                    Ok(before) => Ok(SearchArguments { before, ..self }),
                },
            }
        } else if one_of(option, seq!["-C", "--context"]) {
            match count_in(value, 0, 50) {
                Err(fault) => Err(fault),
                Ok(count) => match consistent(self.before, count, "before-context"@) {
                    Err(fault) => Err(fault),
                    Ok(before) => match consistent(self.after, count, "after-context"@) {
                        Err(fault) => Err(fault),
                        Ok(after) => Ok(SearchArguments { before, after, ..self }),
                    },
                },
            }
        } else {
            match count_in(value, 1, 100) {
                Err(fault) => Err(fault),
                Ok(count) => match consistent(self.max_results, count, "max-results"@) {
                    Err(fault) => Err(fault),
                    Ok(max_results) => Ok(SearchArguments { max_results, ..self }),
                },
            }
        }
    }

    /// The arguments after all of `arguments` from `index` on.
    pub open spec fn with_arguments(self, arguments: Seq<Seq<char>>, index: int) -> Result<
        SearchArguments,
        Seq<char>,
    >
        decreases arguments.len() - index,
    {
        if index < 0 || index >= arguments.len() {
            Ok(self)
        } else {
            let argument = arguments[index];
            if self.end_options {
                (SearchArguments {
                    positional: self.positional.push(argument),
                    ..self
                }).with_arguments(arguments, index + 1)
            } else if argument == "--"@ {
                (SearchArguments { end_options: true, ..self }).with_arguments(arguments, index + 1)
            } else if one_of(argument, seq!["-F", "--fixed-strings"]) {
                (SearchArguments { fixed: true, ..self }).with_arguments(arguments, index + 1)
            } else if one_of(argument, seq!["-i", "--ignore-case"]) {
                (SearchArguments { ignore_case: true, ..self }).with_arguments(arguments, index + 1)
            } else if one_of(argument, seq!["-w", "--word-regexp"]) {
                (SearchArguments { word: true, ..self }).with_arguments(arguments, index + 1)
            } else if one_of(argument, seq!["-v", "--invert-match"]) {
                (SearchArguments { invert: true, ..self }).with_arguments(arguments, index + 1)
            } else if takes_value(argument) {
                if index + 1 >= arguments.len() {
                    Err(argument + " requires a value; expected: yarp search REF PATTERN"@)
                } else {
                    match self.with_option(argument, arguments[index + 1]) {
                        Err(fault) => Err(fault),
                        Ok(next) => next.with_arguments(arguments, index + 2),
                    }
                }
            } else if crate::text::opens_with(argument, "-"@) {
                Err(
                    "unknown search option "@ + argument
                        + "; expected: yarp search REF PATTERN"@,
                )
            } else {
                (SearchArguments {
                    positional: self.positional.push(argument),
                    ..self
                }).with_arguments(arguments, index + 1)
            }
        }
    }

    /// The patterns that the search looks for.
    pub open spec fn all_patterns(self) -> Seq<Seq<char>> {
        if self.positional.len() > 1 {
            self.patterns.push(self.positional[1])
        } else {
            self.patterns
        }
    }

    /// The options that the arguments make.
    pub open spec fn options(self) -> Result<OptionsModel, Seq<char>> {
        let patterns = self.all_patterns();
        if self.positional.len() == 0 {
            Err("missing archive reference; expected: yarp search REF PATTERN"@)
        } else if self.patterns.len() > 0 && self.positional.len() > 1 {
            Err(
                "positional PATTERN and -e are mutually exclusive; expected: yarp search REF PATTERN"@,
            )
        } else if self.positional.len() > 2 {
            Err("search accepts one positional pattern; expected: yarp search REF PATTERN"@)
        } else if patterns.len() == 0 {
            Err("missing search pattern; expected: yarp search REF PATTERN"@)
        } else if patterns.len() > 8 {
            Err("search accepts at most 8 patterns"@)
        } else if exists|i: int|
            0 <= i < patterns.len() && !is_pattern_size(#[trigger] patterns[i]) {
            Err("each search pattern must contain 1 through 1024 UTF-8 bytes"@)
        } else {
            Ok(
                OptionsModel {
                    archive_ref: self.positional[0],
                    patterns,
                    fixed: self.fixed,
                    ignore_case: self.ignore_case,
                    word: self.word,
                    invert: self.invert,
                    before: (match self.before {
                        Some(count) => count as nat,
                        None => 2,
                    }),
                    after: (match self.after {
                        Some(count) => count as nat,
                        None => 2,
                    }),
                    max_results: (match self.max_results {
                        Some(count) => count as nat,
                        None => 20,
                    }),
                },
            )
        }
    }
}

/// The pattern has an accepted size.
pub open spec fn is_pattern_size(pattern: Seq<char>) -> bool {
    0 < encode_utf8(pattern).len() <= 1_024
}

/// A search option that is followed by its value.
pub open spec fn takes_value(argument: Seq<char>) -> bool {
    one_of(
        argument,
        seq![
            "-e",
            "--regexp",
            "-A",
            "--after-context",
            "-B",
            "--before-context",
            "-C",
            "--context",
            "-m",
            "--max-results",
        ],
    )
}

/// The options that a search's arguments make.
pub open spec fn search_options(arguments: Seq<Seq<char>>) -> Result<OptionsModel, Seq<char>> {
    match SearchArguments::fresh().with_arguments(arguments, 0) {
        Err(fault) => Err(fault),
        Ok(read) => read.options(),
    }
}

/// A result with its contents.
pub open spec fn options_result(result: Result<SearchOptions, String>) -> Result<
    OptionsModel,
    Seq<char>,
> {
    match result {
        Ok(options) => Ok(options@),
        Err(error) => Err(error@),
    }
}

/// Read a canonical count between `minimum` and `maximum`.
fn parse_count(value: &str, minimum: usize, maximum: usize) -> (result: Result<usize, String>)
    ensures
        crate::text::verdict(result) == count_in(value@, minimum as nat, maximum as nat),
{
    if !canonical_number(value) {
        return Err(join2("invalid canonical unsigned count ", quoted(value).as_str()));
    }
    let parsed: u64 = match parse_number(value) {
        Some(parsed) if parsed <= usize::MAX as u64 => parsed,
        _ => {
            return Err(join3("count ", quoted(value).as_str(), " is outside the supported range"));
        },
    };
    if parsed < minimum as u64 || parsed > maximum as u64 {
        return Err(
            join4(
                "count must be between ",
                decimal(minimum as u64).as_str(),
                " and ",
                decimal(maximum as u64).as_str(),
            ),
        );
    }
    Ok(parsed as usize)
}

fn set_consistent(target: &mut Option<usize>, value: usize, label: &str) -> (result: Result<
    (),
    String,
>)
    ensures
        match (result, consistent(*old(target), value, label@)) {
            (Ok(_), Ok(next)) => *final(target) == next,
            (Err(error), Err(fault)) => error@ == fault && *final(target) == *old(target),
            _ => false,
        },
{
    if let Some(existing) = *target {
        if existing != value {
            return Err(join3("conflicting ", label, " values"));
        }
    }
    *target = Some(value);
    Ok(())
}

/// The arguments that were read so far.
struct Parsed {
    positional: Vec<String>,
    patterns: Vec<String>,
    fixed: bool,
    ignore_case: bool,
    word: bool,
    invert: bool,
    before: Option<usize>,
    after: Option<usize>,
    max_results: Option<usize>,
    end_options: bool,
}

impl View for Parsed {
    type V = SearchArguments;

    closed spec fn view(&self) -> SearchArguments {
        SearchArguments {
            positional: texts(self.positional@),
            patterns: texts(self.patterns@),
            fixed: self.fixed,
            ignore_case: self.ignore_case,
            word: self.word,
            invert: self.invert,
            before: self.before,
            after: self.after,
            max_results: self.max_results,
            end_options: self.end_options,
        }
    }
}

fn push_text(list: &mut Vec<String>, value: &String)
    ensures
        texts(final(list)@) == texts(old(list)@).push(value@),
{
    let ghost before = list@;
    list.push(value.clone());
    assert(texts(list@) =~= texts(before).push(value@));
}

impl Parsed {
    fn apply(&mut self, option: &str, value: &String) -> (result: Result<(), String>)
        ensures
            match (result, old(self)@.with_option(option@, value@)) {
                (Ok(_), Ok(next)) => final(self)@ == next,
                (Err(error), Err(fault)) => error@ == fault,
                _ => false,
            },
    {
        if is_one_of(option, &["-e", "--regexp"]) {
            push_text(&mut self.patterns, value);
            return Ok(());
        }
        if is_one_of(option, &["-A", "--after-context"]) {
            let count: usize = parse_count(value.as_str(), 0, 50)?;
            return set_consistent(&mut self.after, count, "after-context");
        }
        if is_one_of(option, &["-B", "--before-context"]) {
            let count: usize = parse_count(value.as_str(), 0, 50)?;
            return set_consistent(&mut self.before, count, "before-context");
        }
        if is_one_of(option, &["-C", "--context"]) {
            let count: usize = parse_count(value.as_str(), 0, 50)?;
            set_consistent(&mut self.before, count, "before-context")?;
            return set_consistent(&mut self.after, count, "after-context");
        }
        let count: usize = parse_count(value.as_str(), 1, 100)?;
        set_consistent(&mut self.max_results, count, "max-results")
    }

    #[verifier::loop_isolation(false)]
    fn into_options(self) -> (result: Result<SearchOptions, String>)
        ensures
            options_result(result) == self@.options(),
    {
        let ghost model = self@;
        let mut patterns = self.patterns;
        if self.positional.len() == 0 {
            return Err("missing archive reference; expected: yarp search REF PATTERN".to_owned());
        }
        if patterns.len() > 0 && self.positional.len() > 1 {
            return Err(
                "positional PATTERN and -e are mutually exclusive; expected: yarp search REF PATTERN".to_owned(),
            );
        }
        if self.positional.len() > 2 {
            return Err(
                "search accepts one positional pattern; expected: yarp search REF PATTERN".to_owned(),
            );
        }
        if self.positional.len() > 1 {
            push_text(&mut patterns, &self.positional[1]);
        }
        assert(texts(patterns@) == model.all_patterns());
        if patterns.len() == 0 {
            return Err("missing search pattern; expected: yarp search REF PATTERN".to_owned());
        }
        if patterns.len() > 8 {
            return Err("search accepts at most 8 patterns".to_owned());
        }
        let mut i: usize = 0;
        while i < patterns.len()
            invariant
                i <= patterns.len(),
                forall|j: int| 0 <= j < i ==> is_pattern_size(#[trigger] texts(patterns@)[j]),
                texts(patterns@) == model.all_patterns(),
                0 < model.all_patterns().len() <= 8,
                0 < model.positional.len() <= 2,
                model.patterns.len() > 0 ==> model.positional.len() == 1,
            decreases patterns.len() - i,
        {
            let length: usize = patterns[i].as_str().as_bytes().len();
            assert(texts(patterns@)[i as int] == patterns@[i as int]@);
            if length == 0 || length > 1_024 {
                assert(!is_pattern_size(model.all_patterns()[i as int]));
                return Err("each search pattern must contain 1 through 1024 UTF-8 bytes".to_owned());
            }
            i += 1;
        }
        assert(texts(patterns@).len() == patterns@.len());
        Ok(
            SearchOptions {
                archive_ref: self.positional[0].clone(),
                patterns,
                fixed: self.fixed,
                ignore_case: self.ignore_case,
                word: self.word,
                invert: self.invert,
                before: match self.before {
                    Some(count) => count,
                    None => 2,
                },
                after: match self.after {
                    Some(count) => count,
                    None => 2,
                },
                max_results: match self.max_results {
                    Some(count) => count,
                    None => 20,
                },
            },
        )
    }
}

/// Read the arguments of a search.
///
/// # Errors
///
/// Returns an error for an unknown option, a bad or conflicting value, and a missing or doubled
/// reference or pattern.
pub fn parse_search(arguments: &[String]) -> (result: Result<SearchOptions, String>)
    ensures
        options_result(result) == search_options(texts(arguments@)),
{
    let ghost words = texts(arguments@);
    let mut parsed = Parsed {
        positional: Vec::new(),
        patterns: Vec::new(),
        fixed: false,
        ignore_case: false,
        word: false,
        invert: false,
        before: None,
        after: None,
        max_results: None,
        end_options: false,
    };
    assert(parsed@ =~= SearchArguments::fresh());
    let ghost all = SearchArguments::fresh().with_arguments(words, 0);
    let mut index: usize = 0;
    while index < arguments.len()
        invariant
            index <= arguments.len(),
            words == texts(arguments@),
            all == SearchArguments::fresh().with_arguments(words, 0),
            parsed@.with_arguments(words, index as int) == all,
        decreases arguments.len() - index,
    {
        let argument = arguments[index].as_str();
        assert(words[index as int] == argument@);
        if parsed.end_options {
            push_text(&mut parsed.positional, &arguments[index]);
            index += 1;
        } else if same_text(argument, "--") {
            parsed.end_options = true;
            index += 1;
        } else if is_one_of(argument, &["-F", "--fixed-strings"]) {
            parsed.fixed = true;
            index += 1;
        } else if is_one_of(argument, &["-i", "--ignore-case"]) {
            parsed.ignore_case = true;
            index += 1;
        } else if is_one_of(argument, &["-w", "--word-regexp"]) {
            parsed.word = true;
            index += 1;
        } else if is_one_of(argument, &["-v", "--invert-match"]) {
            parsed.invert = true;
            index += 1;
        } else if is_one_of(
            argument,
            &[
                "-e",
                "--regexp",
                "-A",
                "--after-context",
                "-B",
                "--before-context",
                "-C",
                "--context",
                "-m",
                "--max-results",
            ],
        ) {
            if arguments.len() - index <= 1 {
                return Err(
                    join2(argument, " requires a value; expected: yarp search REF PATTERN"),
                );
            }
            assert(words[index + 1] == arguments@[index + 1]@);
            parsed.apply(argument, &arguments[index + 1])?;
            index += 2;
        } else if starts_with(argument, "-") {
            return Err(
                join3(
                    "unknown search option ",
                    argument,
                    "; expected: yarp search REF PATTERN",
                ),
            );
        } else {
            push_text(&mut parsed.positional, &arguments[index]);
            index += 1;
        }
    }
    parsed.into_options()
}

} // verus!
