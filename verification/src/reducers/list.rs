//! Classification of listings.
use vstd::prelude::*;

use super::classify::{body, trim_start};
use super::evidence::EvidenceClass;
use crate::bytes::{contains_any_folded, starts_with_any_folded};

verus! {

/// The line is a diagnostic of the listing tool itself.
pub open spec fn reports_problem(line: Seq<u8>) -> bool {
    crate::bytes::has_any_prefix_folded(
        crate::bytes::without_leading_blanks(line),
        seq!["error:", "fatal:", "warning:", "gh: error"],
    )
}

/// The line is a table row that holds the state of a run.
pub open spec fn states_outcome(line: Seq<u8>) -> bool {
    crate::bytes::has_any_infix_folded(
        line,
        seq![
            "\tsuccess\t",
            "\tfailure\t",
            "\tcancelled\t",
            "\tin_progress\t",
            "\tqueued\t",
        ],
    )
}

/// The class of a line of a listing.
pub open spec fn class_of(line: Seq<u8>) -> EvidenceClass {
    let line = crate::bytes::without_line_ending(line);
    if line.len() == 0 {
        EvidenceClass::Noise
    } else if reports_problem(line) {
        EvidenceClass::Diagnostic
    } else if states_outcome(line) {
        EvidenceClass::Outcome
    } else {
        EvidenceClass::Example
    }
}

/// Classify a line of a listing.
#[must_use]
pub fn classify(line: &[u8]) -> (class: EvidenceClass)
    ensures
        class == class_of(line@),
{
    let line = body(line);
    if line.len() == 0 {
        EvidenceClass::Noise
    } else if is_cli_diagnostic(line) {
        EvidenceClass::Diagnostic
    } else if is_list_outcome(line) {
        EvidenceClass::Outcome
    } else {
        EvidenceClass::Example
    }
}

fn is_cli_diagnostic(line: &[u8]) -> (found: bool)
    ensures
        found == reports_problem(line@),
{
    starts_with_any_folded(trim_start(line), &["error:", "fatal:", "warning:", "gh: error"])
}

fn is_list_outcome(line: &[u8]) -> (found: bool)
    ensures
        found == states_outcome(line@),
{
    contains_any_folded(
        line,
        &["\tsuccess\t", "\tfailure\t", "\tcancelled\t", "\tin_progress\t", "\tqueued\t"],
    )
}

} // verus!
