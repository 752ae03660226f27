//! Classification of search matches.
use vstd::prelude::*;

use super::classify::{body, has_diagnostic_word};
use super::evidence::EvidenceClass;
use crate::bytes::starts_with_any;

verus! {

/// The class of a line of search output.
pub open spec fn class_of(line: Seq<u8>) -> EvidenceClass {
    let line = crate::bytes::without_line_ending(line);
    if line.len() == 0 {
        EvidenceClass::Noise
    } else if crate::bytes::has_any_prefix(line, seq!["rg:", "grep:", "git grep:", "error:"])
        && super::classify::names_failure(line) {
        EvidenceClass::Diagnostic
    } else {
        EvidenceClass::Example
    }
}

/// Classify a line of search output.
#[must_use]
pub fn classify(line: &[u8]) -> (class: EvidenceClass)
    ensures
        class == class_of(line@),
{
    let line = body(line);
    if line.len() == 0 {
        EvidenceClass::Noise
    } else if starts_with_any(line, &["rg:", "grep:", "git grep:", "error:"])
        && has_diagnostic_word(line) {
        EvidenceClass::Diagnostic
    } else {
        EvidenceClass::Example
    }
}

} // verus!
