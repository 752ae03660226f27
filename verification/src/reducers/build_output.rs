//! Classification of build output.
use vstd::prelude::*;

use super::classify::{body, trim_start};
use super::evidence::EvidenceClass;
use crate::bytes::{contains_any, contains_any_folded, starts_with, starts_with_any, starts_with_any_folded};

verus! {

/// The line states how the build ended.
pub open spec fn states_outcome(line: Seq<u8>) -> bool {
    ||| crate::bytes::has_any_infix_folded(
        line,
        seq![
            "build successful",
            "build failed",
            "command failed with exit code",
            " passed in ",
        ],
    )
    ||| crate::bytes::has_any_prefix_folded(
        line,
        seq!["Finished ", "Test Files  ", "Tests  ", "Build complete"],
    )
    ||| crate::bytes::has_prefix(line, crate::bytes::lit("✔ Build complete"))
}

/// The line names a built artifact.
pub open spec fn names_artifact(line: Seq<u8>) -> bool {
    crate::bytes::has_any_infix(line, seq!["├─ ", "└─ "])
}

/// The line reports a build problem.
pub open spec fn reports_problem(line: Seq<u8>) -> bool {
    ||| crate::bytes::has_any_prefix_folded(
        line,
        seq![
            "error:",
            "error[",
            "warning:",
            "warning[",
            "fatal:",
            "panic:",
            "exception:",
            "traceback",
            "failed ",
            "failure:",
            "npm error",
            "npm err!",
        ],
    )
    ||| crate::bytes::has_any_prefix(line, seq!["✖", "×"])
    ||| crate::bytes::has_any_infix_folded(
        line,
        seq![
            "##[error]",
            "##[warning]",
            "[error]",
            "[warning]",
            ": error ",
            ": warning ",
            " - error ts",
            " - warning ts",
            " command failed with exit code ",
        ],
    )
}

/// The line shows build progress.
pub open spec fn shows_progress(line: Seq<u8>) -> bool {
    crate::bytes::has_any_prefix(
        line,
        seq![
            "Compiling ",
            "Checking ",
            "Fresh ",
            "Downloaded ",
            "Downloading ",
            "Building ",
            "Generating ",
            "[ ",
            "[=",
        ],
    )
}

/// The class of a line of build output.
pub open spec fn class_of(line: Seq<u8>) -> EvidenceClass {
    let line = super::classify::trimmed_body(line);
    if states_outcome(line) {
        EvidenceClass::Outcome
    } else if crate::bytes::has_prefix(line, crate::bytes::lit("ℹ")) || names_artifact(line) {
        EvidenceClass::Example
    } else if reports_problem(line) {
        EvidenceClass::Diagnostic
    } else if shows_progress(line) || line.len() == 0 {
        EvidenceClass::Noise
    } else if crate::bytes::has_any_prefix(line, seq!["> ", "[build]", "[package]"]) {
        EvidenceClass::Structure
    } else {
        EvidenceClass::Example
    }
}

/// Classify a line of build output.
#[must_use]
pub fn classify(line: &[u8]) -> (class: EvidenceClass)
    ensures
        class == class_of(line@),
{
    let line = trim_start(body(line));
    if is_outcome(line) {
        EvidenceClass::Outcome
    } else if starts_with(line, "ℹ".as_bytes()) || is_artifact(line) {
        EvidenceClass::Example
    } else if is_diagnostic(line) {
        EvidenceClass::Diagnostic
    } else if is_progress(line) || line.len() == 0 {
        EvidenceClass::Noise
    } else if starts_with_any(line, &["> ", "[build]", "[package]"]) {
        EvidenceClass::Structure
    } else {
        EvidenceClass::Example
    }
}

fn is_outcome(line: &[u8]) -> (found: bool)
    ensures
        found == states_outcome(line@),
{
    contains_any_folded(
        line,
        &["build successful", "build failed", "command failed with exit code", " passed in "],
    ) || starts_with_any_folded(line, &["Finished ", "Test Files  ", "Tests  ", "Build complete"])
        || starts_with(line, "✔ Build complete".as_bytes())
}

fn is_artifact(line: &[u8]) -> (found: bool)
    ensures
        found == names_artifact(line@),
{
    contains_any(line, &["├─ ", "└─ "])
}

fn is_diagnostic(line: &[u8]) -> (found: bool)
    ensures
        found == reports_problem(line@),
{
    starts_with_any_folded(
        line,
        &[
            "error:",
            "error[",
            "warning:",
            "warning[",
            "fatal:",
            "panic:",
            "exception:",
            "traceback",
            "failed ",
            "failure:",
            "npm error",
            "npm err!",
        ],
    ) || starts_with_any(line, &["✖", "×"]) || contains_any_folded(
        line,
        &[
            "##[error]",
            "##[warning]",
            "[error]",
            "[warning]",
            ": error ",
            ": warning ",
            " - error ts",
            " - warning ts",
            " command failed with exit code ",
        ],
    )
}

fn is_progress(line: &[u8]) -> (found: bool)
    ensures
        found == shows_progress(line@),
{
    starts_with_any(
        line,
        &[
            "Compiling ",
            "Checking ",
            "Fresh ",
            "Downloaded ",
            "Downloading ",
            "Building ",
            "Generating ",
            "[ ",
            "[=",
        ],
    )
}

} // verus!
