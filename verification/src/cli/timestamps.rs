//! The time before which calls are removed.
use vstd::prelude::*;

use crate::text::join2;

verus! {

/// The time that a text in the form of RFC 3339 names: the nanoseconds since 1970, and how many
/// seconds its offset is east of UTC. Of another text, what is said to be wrong with it.
pub uninterp spec fn rfc3339_time(text: Seq<char>) -> Result<(int, int), Seq<char>>;

/// Calls `time::OffsetDateTime::parse` with the `Rfc3339` format, and reads the time by
/// `unix_timestamp_nanos` and the offset by `UtcOffset::whole_seconds`. The contract says that the
/// result, the text of an error among it, depends on the given text alone.
#[verifier::external_body]
fn parse_rfc3339(text: &str) -> (result: Result<(i128, i32), String>)
    ensures
        match result {
            Ok((nanoseconds, offset)) => rfc3339_time(text@) matches Ok(named) && named == (
                nanoseconds as int,
                offset as int,
            ),
            Err(reason) => rfc3339_time(text@) matches Err(named) && named == reason@,
        },
{
    time::OffsetDateTime::parse(text, &time::format_description::well_known::Rfc3339).map(
        |parsed| (parsed.unix_timestamp_nanos(), parsed.offset().whole_seconds()),
    ).map_err(|error| error.to_string())
}

/// The whole milliseconds of some nanoseconds, rounded towards 1970.
pub open spec fn milliseconds(nanoseconds: int) -> int {
    if nanoseconds >= 0 {
        nanoseconds / 1_000_000
    } else {
        -((-nanoseconds) / 1_000_000)
    }
}

/// The milliseconds of a time that must be given in UTC.
///
/// # Errors
///
/// Returns an error when the time has another offset or is too far away.
pub fn utc_milliseconds(nanoseconds: i128, offset_seconds: i32) -> (result: Result<i64, String>)
    ensures
        if offset_seconds != 0 {
            result matches Err(error) && error@ == "prune timestamp must use UTC with a Z suffix"@
        } else if i64::MIN <= milliseconds(nanoseconds as int) <= i64::MAX {
            result matches Ok(value) && value == milliseconds(nanoseconds as int)
        } else {
            result matches Err(error) && error@
                == "prune timestamp is outside the supported range"@
        },
{
    if offset_seconds != 0 {
        return Err("prune timestamp must use UTC with a Z suffix".to_owned());
    }
    if nanoseconds >= 0 {
        let whole: u128 = nanoseconds as u128 / 1_000_000;
        if whole > i64::MAX as u128 {
            return Err("prune timestamp is outside the supported range".to_owned());
        }
        return Ok(whole as i64);
    }
    if nanoseconds == i128::MIN {
        return Err("prune timestamp is outside the supported range".to_owned());
    }
    let whole: u128 = (-nanoseconds) as u128 / 1_000_000;
    if whole > 9_223_372_036_854_775_808 {
        return Err("prune timestamp is outside the supported range".to_owned());
    }
    if whole == 9_223_372_036_854_775_808 {
        return Ok(i64::MIN);
    }
    Ok(-(whole as i64))
}

/// Read the time before which calls are removed.
///
/// # Errors
///
/// Returns an error when the text names no time, or one that is not in UTC or too far away.
pub fn prune_timestamp(text: &str) -> (result: Result<i64, String>)
    ensures
        match rfc3339_time(text@) {
            Err(reason) => result matches Err(error) && error@ == "invalid UTC timestamp: "@
                + reason,
            Ok((nanoseconds, offset)) => if offset != 0 {
                result matches Err(error) && error@
                    == "prune timestamp must use UTC with a Z suffix"@
            } else if i64::MIN <= milliseconds(nanoseconds) <= i64::MAX {
                result matches Ok(value) && value == milliseconds(nanoseconds)
            } else {
                result matches Err(error) && error@
                    == "prune timestamp is outside the supported range"@
            },
        },
{
    match parse_rfc3339(text) {
        Ok((nanoseconds, offset)) => utc_milliseconds(nanoseconds, offset),
        Err(reason) => Err(join2("invalid UTC timestamp: ", reason.as_str())),
    }
}

} // verus!
