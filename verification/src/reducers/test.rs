//! Classification of test-runner output.
use vstd::prelude::*;

use super::classify::{body, trim_start};
use super::evidence::EvidenceClass;
use crate::bytes::{contains_folded, ends_with, starts_with, starts_with_any, starts_with_any_folded};

verus! {

/// The line states how a test run ended.
pub open spec fn states_outcome(line: Seq<u8>) -> bool {
    ||| crate::bytes::has_any_prefix_folded(
        line,
        seq!["test result:", "failures:", "Test Files  ", "Tests  "],
    )
    ||| crate::bytes::has_infix_folded(line, crate::bytes::lit(" passed in "))
    ||| crate::bytes::has_infix_folded(line, crate::bytes::lit(" failed, "))
        && crate::bytes::has_infix_folded(line, crate::bytes::lit(" passed"))
}

/// The line reports a failed test or an error.
pub open spec fn reports_problem(line: Seq<u8>) -> bool {
    ||| crate::bytes::has_any_prefix_folded(
        line,
        seq![
            "FAIL ",
            "FAILED ",
            "--- FAIL:",
            "not ok ",
            "AssertionError",
            "ZodError",
            "Caused by:",
            "Traceback",
            "error:",
            "error[",
            "npm error",
            "thread '",
            "E ",
        ],
    )
    ||| crate::bytes::has_prefix(line, crate::bytes::lit("❯")) && crate::bytes::has_infix_folded(line, crate::bytes::lit(" failed"))
    ||| crate::bytes::has_infix_folded(line, crate::bytes::lit("testCodeFailure"))
    ||| crate::bytes::has_infix_folded(line, crate::bytes::lit("stopping after "))
        && crate::bytes::has_infix_folded(line, crate::bytes::lit(" failure"))
}

/// The line is routine progress.
pub open spec fn is_routine_line(line: Seq<u8>) -> bool {
    ||| crate::bytes::has_prefix(line, crate::bytes::lit("test ")) && (crate::bytes::has_suffix(
        line,
        crate::bytes::lit(" ... ok"),
    ) || crate::bytes::has_suffix(line, crate::bytes::lit(" ok")))
    ||| crate::bytes::has_any_prefix(
        line,
        seq!["   Compiling ", "Compiling ", "Checking ", "Fresh "],
    )
    ||| crate::bytes::has_infix_folded(line, crate::bytes::lit(" passed in "))
}

/// The class of a line of test output.
pub open spec fn class_of(line: Seq<u8>) -> EvidenceClass {
    let trimmed = super::classify::trimmed_body(line);
    if states_outcome(trimmed) {
        EvidenceClass::Outcome
    } else if is_routine_line(trimmed) {
        EvidenceClass::Noise
    } else if reports_problem(trimmed) {
        EvidenceClass::Diagnostic
    } else if crate::bytes::has_any_prefix(
        trimmed,
        seq!["running ", "collected ", "test session starts"],
    ) {
        EvidenceClass::Structure
    } else if trimmed.len() == 0 {
        EvidenceClass::Noise
    } else {
        EvidenceClass::Example
    }
}

/// Classify a line of test output.
#[must_use]
pub fn classify(line: &[u8]) -> (class: EvidenceClass)
    ensures
        class == class_of(line@),
{
    let trimmed = trim_start(body(line));
    if is_outcome(trimmed) {
        EvidenceClass::Outcome
    } else if is_routine(trimmed) {
        EvidenceClass::Noise
    } else if is_diagnostic(trimmed) {
        EvidenceClass::Diagnostic
    } else if starts_with_any(trimmed, &["running ", "collected ", "test session starts"]) {
        EvidenceClass::Structure
    } else if trimmed.len() == 0 {
        EvidenceClass::Noise
    } else {
        EvidenceClass::Example
    }
}

fn is_outcome(line: &[u8]) -> (found: bool)
    ensures
        found == states_outcome(line@),
{
    starts_with_any_folded(line, &["test result:", "failures:", "Test Files  ", "Tests  "])
        || contains_folded(line, " passed in ".as_bytes()) || (contains_folded(line, " failed, ".as_bytes()) && contains_folded(line, " passed".as_bytes()))
}

fn is_diagnostic(line: &[u8]) -> (found: bool)
    ensures
        found == reports_problem(line@),
{
    starts_with_any_folded(
        line,
        &[
            "FAIL ",
            "FAILED ",
            "--- FAIL:",
            "not ok ",
            "AssertionError",
            "ZodError",
            "Caused by:",
            "Traceback",
            "error:",
            "error[",
            "npm error",
            "thread '",
            "E ",
        ],
    ) || (starts_with(line, "❯".as_bytes()) && contains_folded(line, " failed".as_bytes()))
        || contains_folded(line, "testCodeFailure".as_bytes()) || (contains_folded(line, "stopping after ".as_bytes()) && contains_folded(line, " failure".as_bytes()))
}

fn is_routine(line: &[u8]) -> (found: bool)
    ensures
        found == is_routine_line(line@),
{
    (starts_with(line, "test ".as_bytes()) && (ends_with(line, " ... ok".as_bytes()) || ends_with(
        line,
        " ok".as_bytes(),
    ))) || starts_with_any(line, &["   Compiling ", "Compiling ", "Checking ", "Fresh "])
        || contains_folded(line, " passed in ".as_bytes())
}

} // verus!
