//! Classification of unified diffs.
use vstd::prelude::*;

use super::classify::body;
use super::evidence::EvidenceClass;
use crate::bytes::{starts_with, starts_with_any};

verus! {

/// The line adds or removes source text.
pub open spec fn changes_source(line: Seq<u8>) -> bool {
    ||| crate::bytes::has_prefix(line, crate::bytes::lit("+")) && !crate::bytes::has_prefix(line, crate::bytes::lit("+++"))
    ||| crate::bytes::has_prefix(line, crate::bytes::lit("-")) && !crate::bytes::has_prefix(line, crate::bytes::lit("---"))
}

/// Whether the line adds or removes source text.
pub fn is_change(line: &[u8]) -> (found: bool)
    ensures
        found == changes_source(line@),
{
    (starts_with(line, "+".as_bytes()) && !starts_with(line, "+++".as_bytes())) || (starts_with(line, "-".as_bytes()) && !starts_with(line, "---".as_bytes()))
}

/// The class of a line of a diff.
pub open spec fn class_of(line: Seq<u8>) -> EvidenceClass {
    let line = crate::bytes::without_line_ending(line);
    if crate::bytes::has_any_prefix(
        line,
        seq![
            "diff --git ",
            "index ",
            "--- ",
            "+++ ",
            "@@ ",
            "Binary files ",
            "new file mode ",
            "deleted file mode ",
            "rename from ",
            "rename to ",
        ],
    ) {
        EvidenceClass::Structure
    } else if changes_source(line) {
        EvidenceClass::Example
    } else {
        EvidenceClass::Noise
    }
}

/// Classify a line of a diff.
#[must_use]
pub fn classify(line: &[u8]) -> (class: EvidenceClass)
    ensures
        class == class_of(line@),
{
    let line = body(line);
    if starts_with_any(
        line,
        &[
            "diff --git ",
            "index ",
            "--- ",
            "+++ ",
            "@@ ",
            "Binary files ",
            "new file mode ",
            "deleted file mode ",
            "rename from ",
            "rename to ",
        ],
    ) {
        EvidenceClass::Structure
    } else if is_change(line) {
        EvidenceClass::Example
    } else {
        EvidenceClass::Noise
    }
}

} // verus!
