//! Classification of status reports.
use vstd::prelude::*;

use super::classify::{body, trim_start};
use super::evidence::EvidenceClass;
use crate::bytes::{contains_any, contains_any_folded, ends_with, starts_with_any};

verus! {

/// The line states the overall state.
pub open spec fn states_outcome(line: Seq<u8>) -> bool {
    ||| crate::bytes::has_any_prefix(
        line,
        seq!["On branch ", "Your branch ", "HEAD detached", "## ", "Active:", "Loaded:"],
    )
    ||| crate::bytes::has_any_infix_folded(
        line,
        seq![
            "process completed with exit code",
            "command failed with exit code",
            "test files  ",
            "tests  ",
        ],
    )
}

/// The line reports a problem.
pub open spec fn reports_problem(line: Seq<u8>) -> bool {
    ||| crate::bytes::has_any_infix_folded(
        line,
        seq![
            "##[error]",
            "##[warning]",
            "npm error",
            "failure reason:",
            "level=error",
            "level=warning",
            "\"level\":\"error\"",
            "\"level\":\"warning\"",
        ],
    )
    ||| crate::bytes::has_any_infix(
        line,
        seq![" ERROR ", " WARNING ", " WARN ", " FATAL ", " PANIC "],
    )
}

/// The class of a line of a status report.
pub open spec fn class_of(line: Seq<u8>) -> EvidenceClass {
    let line = super::classify::trimmed_body(line);
    if states_outcome(line) {
        EvidenceClass::Outcome
    } else if reports_problem(line) {
        EvidenceClass::Diagnostic
    } else if crate::bytes::has_suffix(line, crate::bytes::lit(":")) {
        EvidenceClass::Structure
    } else if line.len() == 0 {
        EvidenceClass::Noise
    } else {
        EvidenceClass::Example
    }
}

/// Classify a line of a status report.
#[must_use]
pub fn classify(line: &[u8]) -> (class: EvidenceClass)
    ensures
        class == class_of(line@),
{
    let line = trim_start(body(line));
    if is_outcome(line) {
        EvidenceClass::Outcome
    } else if is_diagnostic(line) {
        EvidenceClass::Diagnostic
    } else if ends_with(line, ":".as_bytes()) {
        EvidenceClass::Structure
    } else if line.len() == 0 {
        EvidenceClass::Noise
    } else {
        EvidenceClass::Example
    }
}

fn is_outcome(line: &[u8]) -> (found: bool)
    ensures
        found == states_outcome(line@),
{
    starts_with_any(
        line,
        &["On branch ", "Your branch ", "HEAD detached", "## ", "Active:", "Loaded:"],
    ) || contains_any_folded(
        line,
        &[
            "process completed with exit code",
            "command failed with exit code",
            "test files  ",
            "tests  ",
        ],
    )
}

fn is_diagnostic(line: &[u8]) -> (found: bool)
    ensures
        found == reports_problem(line@),
{
    contains_any_folded(
        line,
        &[
            "##[error]",
            "##[warning]",
            "npm error",
            "failure reason:",
            "level=error",
            "level=warning",
            "\"level\":\"error\"",
            "\"level\":\"warning\"",
        ],
    ) || contains_any(line, &[" ERROR ", " WARNING ", " WARN ", " FATAL ", " PANIC "])
}

} // verus!
