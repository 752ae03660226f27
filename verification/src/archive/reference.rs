//! References to archived calls.
use vstd::prelude::*;

use crate::digest::{is_lower_hex, only_lower_hex};
use crate::text::{chars, opens_with, reports, starts_with};

verus! {

/// The form of a reference: a prefix and 32 lower-case hexadecimal digits.
pub open spec fn is_archive_ref(value: Seq<char>) -> bool {
    value.len() == 35 && opens_with(value, "yr_"@) && is_lower_hex(value.skip(3))
}

/// Whether a text has the form of a reference.
pub fn has_reference_form(value: &str) -> (found: bool)
    ensures
        found == is_archive_ref(value@),
{
    let characters = chars(value);
    if characters.len() != 35 || !starts_with(value, "yr_") {
        return false;
    }
    let digits: &[char] = &characters.as_slice()[3..35];
    assert(digits@ =~= value@.skip(3));
    only_lower_hex(digits)
}

/// Check the form of a reference.
///
/// # Errors
///
/// Returns an error when the text does not have the form of a reference.
pub fn validate_archive_ref(archive_ref: &str) -> (result: Result<(), String>)
    ensures
        reports(
            result,
            if is_archive_ref(archive_ref@) {
                None
            } else {
                Some(
                    "archive reference must be yr_ followed by 32 lowercase hexadecimal digits"@,
                )
            },
        ),
{
    if !has_reference_form(archive_ref) {
        return Err(
            "archive reference must be yr_ followed by 32 lowercase hexadecimal digits".to_owned(),
        );
    }
    Ok(())
}

} // verus!
