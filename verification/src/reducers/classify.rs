//! Line tests that every output family shares.
use vstd::prelude::*;

use crate::bytes::{
    contains_any_folded, contains_folded, starts_with_any, strip_line_ending, trim_blank_start,
};

verus! {

/// The diagnostic terms that a summary always reports, in lower case.
pub const REGISTERED_DIAGNOSTICS: [&'static str; 5] = [
    "failure",
    "panic",
    "error",
    "warning",
    "test result",
];

/// The registered diagnostic terms.
pub open spec fn registered_terms() -> Seq<&'static str> {
    seq!["failure", "panic", "error", "warning", "test result"]
}

/// The line without its ending.
pub fn body(line: &[u8]) -> (body: &[u8])
    ensures
        body@ == crate::bytes::without_line_ending(line@),
{
    strip_line_ending(line)
}

/// The value without its leading spaces and tabs.
pub fn trim_start(value: &[u8]) -> (trimmed: &[u8])
    ensures
        trimmed@ == crate::bytes::without_leading_blanks(value@),
{
    trim_blank_start(value)
}

/// A line, without its ending and its leading blanks.
pub open spec fn trimmed_body(line: Seq<u8>) -> Seq<u8> {
    crate::bytes::without_leading_blanks(crate::bytes::without_line_ending(line))
}

/// The line states how a tool run ended or how to follow it.
pub open spec fn states_tool_outcome(line: Seq<u8>) -> bool {
    crate::bytes::has_any_prefix(
        trimmed_body(line),
        seq![
            "Process exited with code ",
            "Process running with session ID ",
            "Command exited with code ",
            "Command timed out",
        ],
    )
}

/// Whether the line states how a tool run ended or how to follow it.
pub fn is_tool_outcome(line: &[u8]) -> (found: bool)
    ensures
        found == states_tool_outcome(line@),
{
    starts_with_any(
        trim_start(body(line)),
        &[
            "Process exited with code ",
            "Process running with session ID ",
            "Command exited with code ",
            "Command timed out",
        ],
    )
}

/// Whether a non-empty `needle` stands in `body`, up to ASCII case.
pub fn contains_ascii_insensitive(body: &[u8], needle: &[u8]) -> (found: bool)
    ensures
        found == crate::bytes::has_infix_folded(body@, needle@),
{
    contains_folded(body, needle)
}

/// `body` holds a registered diagnostic term, up to ASCII case.
pub open spec fn names_registered_term(body: Seq<u8>) -> bool {
    crate::bytes::has_any_infix_folded(body, registered_terms())
}

/// Whether `body` holds a registered diagnostic term, up to ASCII case.
pub fn has_registered_diagnostic(body: &[u8]) -> (found: bool)
    ensures
        found == names_registered_term(body@),
{
    contains_any_folded(body, &["failure", "panic", "error", "warning", "test result"])
}

/// `body` holds a word that names a failure, up to ASCII case.
pub open spec fn names_failure(body: Seq<u8>) -> bool {
    crate::bytes::has_any_infix_folded(
        body,
        seq![
            "error",
            "failed",
            "failure",
            "warning",
            "panic",
            "fatal",
            "exception",
            "traceback",
            "segmentation fault",
        ],
    )
}

/// Whether `body` holds a word that names a failure, up to ASCII case.
pub fn has_diagnostic_word(body: &[u8]) -> (found: bool)
    ensures
        found == names_failure(body@),
{
    contains_any_folded(
        body,
        &[
            "error",
            "failed",
            "failure",
            "warning",
            "panic",
            "fatal",
            "exception",
            "traceback",
            "segmentation fault",
        ],
    )
}

} // verus!
