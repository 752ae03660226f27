//! Classification of log output.
use vstd::prelude::*;

use super::classify::body;
use super::evidence::EvidenceClass;
use crate::bytes::{contains_any_folded, starts_with_any, starts_with_any_folded};

verus! {

/// An ASCII decimal digit.
pub open spec fn is_digit(byte: u8) -> bool {
    48 <= byte <= 57
}

/// The line begins like a timestamp.
pub open spec fn has_timestamp(line: Seq<u8>) -> bool {
    ||| {
        &&& line.len() >= 5
        &&& forall|i: int| 0 <= i < 4 ==> is_digit(#[trigger] line[i])
        &&& line[4] == 45
    }
    ||| crate::bytes::has_any_prefix(
        line,
        seq![
            "Jan ",
            "Feb ",
            "Mar ",
            "Apr ",
            "May ",
            "Jun ",
            "Jul ",
            "Aug ",
            "Sep ",
            "Oct ",
            "Nov ",
            "Dec ",
        ],
    )
}

/// The line reports a problem.
pub open spec fn reports_problem(line: Seq<u8>) -> bool {
    ||| crate::bytes::has_any_prefix_folded(
        line,
        seq![
            "##[error]",
            "##[warning]",
            "[error]",
            "[warning]",
            "error: ",
            "warning: ",
            "fatal: ",
            "panic: ",
        ],
    )
    ||| has_timestamp(line) && crate::bytes::has_any_infix_folded(
        line,
        seq![
            " ERROR ",
            " WARNING ",
            " WARN ",
            " FATAL ",
            " PANIC ",
            " FAILED ",
            "level=error",
            "level=warning",
            "\"level\":\"error\"",
            "\"level\":\"warning\"",
        ],
    )
}

/// The class of a log line.
pub open spec fn class_of(line: Seq<u8>) -> EvidenceClass {
    let line = crate::bytes::without_line_ending(line);
    if line.len() == 0 {
        EvidenceClass::Noise
    } else if reports_problem(line) {
        EvidenceClass::Diagnostic
    } else {
        EvidenceClass::Example
    }
}

/// Classify a log line.
#[must_use]
pub fn classify(line: &[u8]) -> (class: EvidenceClass)
    ensures
        class == class_of(line@),
{
    let line = body(line);
    if line.len() == 0 {
        EvidenceClass::Noise
    } else if is_diagnostic(line) {
        EvidenceClass::Diagnostic
    } else {
        EvidenceClass::Example
    }
}

fn is_diagnostic(line: &[u8]) -> (found: bool)
    ensures
        found == reports_problem(line@),
{
    starts_with_any_folded(
        line,
        &[
            "##[error]",
            "##[warning]",
            "[error]",
            "[warning]",
            "error: ",
            "warning: ",
            "fatal: ",
            "panic: ",
        ],
    ) || (looks_timestamped(line) && contains_any_folded(
        line,
        &[
            " ERROR ",
            " WARNING ",
            " WARN ",
            " FATAL ",
            " PANIC ",
            " FAILED ",
            "level=error",
            "level=warning",
            "\"level\":\"error\"",
            "\"level\":\"warning\"",
        ],
    ))
}

fn digit(byte: u8) -> (found: bool)
    ensures
        found == is_digit(byte),
{
    48 <= byte && byte <= 57
}

fn looks_timestamped(line: &[u8]) -> (found: bool)
    ensures
        found == has_timestamp(line@),
{
    (line.len() >= 5 && digit(line[0]) && digit(line[1]) && digit(line[2]) && digit(line[3])
        && line[4] == 45) || starts_with_any(
        line,
        &[
            "Jan ",
            "Feb ",
            "Mar ",
            "Apr ",
            "May ",
            "Jun ",
            "Jul ",
            "Aug ",
            "Sep ",
            "Oct ",
            "Nov ",
            "Dec ",
        ],
    )
}

} // verus!
