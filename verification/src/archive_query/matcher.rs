//! Compiled search patterns.
use vstd::prelude::*;

use super::arguments::{OptionsModel, SearchOptions};
use crate::text::{digits, join2, join3, texts};

verus! {

/// The largest compiled search pattern, in bytes.
pub const REGEX_SIZE_LIMIT: usize = 524_288;

/// `regex::bytes::Regex`: a compiled pattern.
#[verifier::external_type_specification]
#[verifier::external_body]
pub struct ExRegex(regex::bytes::Regex);

/// `regex::Error`: why a pattern could not be compiled.
#[verifier::external_type_specification]
#[verifier::external_body]
pub struct ExRegexError(regex::Error);

/// The byte strings in which a compiled pattern has a match.
pub uninterp spec fn matched_by(regex: regex::bytes::Regex) -> Set<Seq<u8>>;

/// The byte strings in which a pattern without Unicode classes has a match.
pub uninterp spec fn pattern_language(pattern: Seq<char>, ignore_case: bool) -> Set<Seq<u8>>;

/// What is said to be wrong with a pattern without Unicode classes. Nothing is where it can be
/// compiled, were it not for its size.
pub uninterp spec fn pattern_fault(pattern: Seq<char>, ignore_case: bool) -> Option<Seq<char>>;

/// The size limit that a compiled pattern exceeded, where that is the error.
pub uninterp spec fn exceeded_limit(error: regex::Error) -> Option<usize>;

/// What an error says.
pub uninterp spec fn error_text(error: regex::Error) -> Seq<char>;

/// A character with a meaning of its own in a pattern.
pub open spec fn is_pattern_meta(c: char) -> bool {
    ||| c == '\\' || c == '.' || c == '+' || c == '*' || c == '?' || c == '(' || c == ')'
    ||| c == '|' || c == '[' || c == ']' || c == '{' || c == '}' || c == '^' || c == '$'
    ||| c == '#' || c == '&' || c == '-' || c == '~'
}

/// `text` with a backslash before each character that has a meaning of its own.
pub open spec fn escaped(text: Seq<char>) -> Seq<char>
    decreases text.len(),
{
    if text.len() == 0 {
        Seq::empty()
    } else {
        let rest = escaped(text.drop_last());
        if is_pattern_meta(text.last()) {
            rest.push('\\').push(text.last())
        } else {
            rest.push(text.last())
        }
    }
}

/// Calls `regex::escape`, which puts a backslash before each meta character.
#[verifier::external_body]
fn escape_pattern(text: &str) -> (pattern: String)
    ensures
        pattern@ == escaped(text@),
{
    regex::escape(text)
}

/// Calls `regex::bytes::RegexBuilder::build` without Unicode classes. Whether the pattern can be
/// compiled, what it then matches and what the error otherwise says depend on the pattern and the
/// case flag alone. A pattern that can be compiled may still be refused for the size of its compiled
/// form, which depends on the machine; the error then carries the given limit. Within the limit that
/// is asked for here, the size is the first bound of the compiler that a pattern meets.
#[verifier::external_body]
fn build_regex(pattern: &str, ignore_case: bool, size_limit: usize) -> (result: Result<
    regex::bytes::Regex,
    regex::Error,
>)
    requires
        size_limit <= REGEX_SIZE_LIMIT,
    ensures
        match result {
            Ok(regex) => pattern_fault(pattern@, ignore_case) is None && matched_by(regex)
                == pattern_language(pattern@, ignore_case),
            Err(error) => match exceeded_limit(error) {
                Some(limit) => limit == size_limit && pattern_fault(pattern@, ignore_case) is None,
                None => pattern_fault(pattern@, ignore_case) == Some(error_text(error)),
            },
        },
{
    regex::bytes::RegexBuilder::new(pattern)
        .case_insensitive(ignore_case)
        .unicode(false)
        .size_limit(size_limit)
        .dfa_size_limit(size_limit)
        .build()
}

/// What is said of a compiled pattern that is too large.
pub open spec fn size_text(limit: usize) -> Seq<char> {
    "Compiled regex exceeds size limit of "@ + digits(limit as nat) + " bytes."@
}

/// Calls the `Display` implementation of `regex::Error`, which names an exceeded size limit and
/// otherwise repeats what the error holds.
#[verifier::external_body]
fn regex_error_text(error: &regex::Error) -> (text: String)
    ensures
        text@ == error_text(*error),
        exceeded_limit(*error) matches Some(limit) ==> text@ == size_text(limit),
{
    format!("{error}")
}

/// Calls `regex::bytes::Regex::is_match`, which tells whether the pattern has a match anywhere
/// in the bytes.
#[verifier::external_body]
fn regex_is_match(regex: &regex::bytes::Regex, line: &[u8]) -> (found: bool)
    ensures
        found == matched_by(*regex).contains(line@),
{
    regex.is_match(line)
}

/// One search pattern as an alternative of the compiled pattern.
pub open spec fn alternative(pattern: Seq<char>, fixed: bool, word: bool) -> Seq<char> {
    let body = if fixed {
        escaped(pattern)
    } else {
        pattern
    };
    if word {
        "(?:\\b(?:"@ + body + ")\\b)"@
    } else {
        "(?:"@ + body + ")"@
    }
}

/// The first `count` search patterns as alternatives.
pub open spec fn alternatives(
    patterns: Seq<Seq<char>>,
    count: nat,
    fixed: bool,
    word: bool,
) -> Seq<char>
    decreases count,
{
    if count == 0 {
        Seq::empty()
    } else if count == 1 {
        alternative(patterns[0], fixed, word)
    } else {
        alternatives(patterns, (count - 1) as nat, fixed, word) + "|"@ + alternative(
            patterns[count - 1],
            fixed,
            word,
        )
    }
}

impl OptionsModel {
    /// The pattern that is compiled for the search.
    pub open spec fn pattern(self) -> Seq<char> {
        alternatives(self.patterns, self.patterns.len(), self.fixed, self.word)
    }

    /// The lines in which a search pattern has a match.
    pub open spec fn language(self) -> Set<Seq<u8>> {
        pattern_language(self.pattern(), self.ignore_case)
    }

    /// The pattern of the search can be compiled, were it not for its size.
    pub open spec fn compiles(self) -> bool {
        pattern_fault(self.pattern(), self.ignore_case) is None
    }

    /// The search selects the line.
    pub open spec fn selects(self, line: Seq<u8>) -> bool {
        self.language().contains(line) != self.invert
    }
}

/// A compiled search pattern.
#[derive(Debug)]
pub struct Matcher {
    regex: regex::bytes::Regex,
}

impl Matcher {
    /// The byte strings in which the pattern has a match.
    pub closed spec fn language(&self) -> Set<Seq<u8>> {
        matched_by(self.regex)
    }

    /// Whether the pattern has a match in the line.
    pub fn is_match(&self, line: &[u8]) -> (found: bool)
        ensures
            found == self.language().contains(line@),
    {
        regex_is_match(&self.regex, line)
    }
}

fn write_alternative(pattern: &str, fixed: bool, word: bool) -> (text: String)
    ensures
        text@ == alternative(pattern@, fixed, word),
{
    let body: String = if fixed {
        escape_pattern(pattern)
    } else {
        pattern.to_owned()
    };
    if word {
        join3("(?:\\b(?:", body.as_str(), ")\\b)")
    } else {
        join3("(?:", body.as_str(), ")")
    }
}

/// Write the search patterns as one pattern with alternatives.
pub fn search_pattern(options: &SearchOptions) -> (pattern: String)
    ensures
        pattern@ == options@.pattern(),
{
    let ghost patterns = texts(options.patterns@);
    let mut pattern = String::new();
    let mut i: usize = 0;
    assert(pattern@ =~= alternatives(patterns, 0, options.fixed, options.word));
    while i < options.patterns.len()
        invariant
            i <= options.patterns.len(),
            patterns == texts(options.patterns@),
            pattern@ == alternatives(patterns, i as nat, options.fixed, options.word),
        decreases options.patterns.len() - i,
    {
        let next = write_alternative(options.patterns[i].as_str(), options.fixed, options.word);
        assert(patterns[i as int] == options.patterns@[i as int]@);
        if i == 0 {
            pattern = next;
        } else {
            pattern.append("|");
            pattern.append(next.as_str());
        }
        i += 1;
    }
    pattern
}

/// What is said of search patterns that are refused: what is wrong with them, or that they take too
/// much room.
pub open spec fn refusal(options: OptionsModel) -> Seq<char> {
    "invalid bounded search pattern: "@ + match pattern_fault(
        options.pattern(),
        options.ignore_case,
    ) {
        Some(reason) => reason,
        None => size_text(REGEX_SIZE_LIMIT),
    }
}

/// Compile the search patterns.
///
/// # Errors
///
/// Returns an error when the pattern is invalid or too large.
pub fn compile_matcher(options: &SearchOptions) -> (result: Result<Matcher, String>)
    ensures
        match result {
            Ok(matcher) => options@.compiles() && matcher.language() == options@.language(),
            Err(error) => error@ == refusal(options@),
        },
{
    let pattern = search_pattern(options);
    match build_regex(pattern.as_str(), options.ignore_case, REGEX_SIZE_LIMIT) {
        Ok(regex) => Ok(Matcher { regex }),
        Err(error) => {
            let reason = regex_error_text(&error);
            Err(join2("invalid bounded search pattern: ", reason.as_str()))
        },
    }
}

} // verus!
