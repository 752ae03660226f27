//! Which tables an archive has, and how an older one is brought up to date.
use vstd::prelude::*;

use super::verification::SCHEMA_VERSION;
use crate::bytes::{contains, has_infix, lit};
use crate::text::{
    decimal, digits, join2, join3, join4, join5, reports, same_text, signed_decimal, signed_digits,
};

verus! {

/// How long an archive waits for another process, in milliseconds.
pub const ARCHIVE_BUSY_TIMEOUT_MS: u64 = 5_000;

/// What a new connection does with an archive.
#[derive(Clone, Copy, Debug, PartialEq, Eq, Structural)]
pub enum SchemaAction {
    /// It makes the tables.
    Initialize,
    /// It brings the tables up to date, where they are not.
    Update,
}

/// Decide what to do with an archive that may be written, by the version of its tables.
///
/// # Errors
///
/// Returns an error when the version is not known.
pub fn schema_action(version: i64) -> (result: Result<SchemaAction, String>)
    ensures
        if version == 0 {
            result == Ok::<SchemaAction, String>(SchemaAction::Initialize)
        } else if version == SCHEMA_VERSION {
            result == Ok::<SchemaAction, String>(SchemaAction::Update)
        } else if version > SCHEMA_VERSION {
            result matches Err(error) && error@ == "archive schema version "@ + signed_digits(
                version as int,
            ) + " is newer than supported version "@ + signed_digits(SCHEMA_VERSION as int)
        } else {
            result matches Err(error) && error@ == "archive schema version "@ + signed_digits(
                version as int,
            ) + " has no supported migration"@
        },
{
    if version == 0 {
        return Ok(SchemaAction::Initialize);
    }
    if version == SCHEMA_VERSION {
        return Ok(SchemaAction::Update);
    }
    if version > SCHEMA_VERSION {
        return Err(
            join4(
                "archive schema version ",
                signed_decimal(version).as_str(),
                " is newer than supported version ",
                signed_decimal(SCHEMA_VERSION).as_str(),
            ),
        );
    }
    Err(
        join3(
            "archive schema version ",
            signed_decimal(version).as_str(),
            " has no supported migration",
        ),
    )
}

/// Check an archive that is only read.
///
/// # Errors
///
/// Returns an error when its tables have another version or are not up to date.
pub fn check_readable(version: i64, current: Result<bool, String>) -> (result: Result<(), String>)
    ensures
        if version != SCHEMA_VERSION {
            result matches Err(error) && error@ == "archive schema version "@ + signed_digits(
                version as int,
            ) + ", expected "@ + signed_digits(SCHEMA_VERSION as int)
        } else {
            match current {
                Err(reason) => result == Err::<(), String>(reason),
                Ok(false) => result matches Err(error) && error@
                    == "archive schema requires migration; open it with a writable YARP command first"@,
                Ok(true) => result is Ok,
            }
        },
{
    if version != SCHEMA_VERSION {
        return Err(
            join4(
                "archive schema version ",
                signed_decimal(version).as_str(),
                ", expected ",
                signed_decimal(SCHEMA_VERSION).as_str(),
            ),
        );
    }
    match current {
        Err(reason) => Err(reason),
        Ok(false) => Err(
            "archive schema requires migration; open it with a writable YARP command first".to_owned(),
        ),
        Ok(true) => Ok(()),
    }
}

/// What is done with the version that stands in an archive when its tables are about to be made:
/// another process may have made them.
///
/// # Errors
///
/// Returns an error when another process made other tables.
pub fn should_create_tables(version: i64) -> (result: Result<bool, String>)
    ensures
        if version == 0 {
            result == Ok::<bool, String>(true)
        } else if version == SCHEMA_VERSION {
            result == Ok::<bool, String>(false)
        } else {
            result matches Err(error) && error@ == "archive schema version changed to "@
                + signed_digits(version as int) + " while initializing; expected 0 or "@
                + signed_digits(SCHEMA_VERSION as int)
        },
{
    if version == 0 {
        return Ok(true);
    }
    if version == SCHEMA_VERSION {
        return Ok(false);
    }
    Err(
        join4(
            "archive schema version changed to ",
            signed_decimal(version).as_str(),
            " while initializing; expected 0 or ",
            signed_decimal(SCHEMA_VERSION).as_str(),
        ),
    )
}

/// Whether the tables of an archive are up to date, by the columns that they have and by the text
/// that made the table of snapshots.
///
/// # Errors
///
/// Returns an error when only one of the columns is there.
pub fn schema_is_current(
    has_archive_ref: bool,
    has_completeness: bool,
    snapshots_sql: &str,
) -> (result: Result<bool, String>)
    ensures
        if has_archive_ref != has_completeness {
            result matches Err(error) && error@
                == "archive schema has a partial indexed-output migration"@
        } else {
            result == Ok::<bool, String>(
                has_archive_ref && has_infix(
                    vstd::utf8::encode_utf8(snapshots_sql@),
                    lit("result_text"),
                ) && has_infix(
                    vstd::utf8::encode_utf8(snapshots_sql@),
                    lit("source_completeness"),
                ),
            )
        },
{
    if has_archive_ref != has_completeness {
        return Err("archive schema has a partial indexed-output migration".to_owned());
    }
    if !has_archive_ref {
        return Ok(false);
    }
    Ok(
        contains(snapshots_sql.as_bytes(), "result_text".as_bytes()) && contains(
            snapshots_sql.as_bytes(),
            "source_completeness".as_bytes(),
        ),
    )
}

/// The free space that a backup of an archive needs.
pub open spec fn backup_space(archive_bytes: u64) -> u64 {
    if archive_bytes * 2 > u64::MAX {
        u64::MAX
    } else {
        (archive_bytes * 2) as u64
    }
}

/// Check that there is space for a backup of an archive.
///
/// # Errors
///
/// Returns an error when there is not.
pub fn check_backup_space(archive_bytes: u64, available: u64) -> (result: Result<(), String>)
    ensures
        reports(
            result,
            if available < backup_space(archive_bytes) {
                Some(
                    "archive migration needs at least "@ + digits(
                        backup_space(archive_bytes) as nat,
                    ) + " free bytes, found "@ + digits(available as nat),
                )
            } else {
                None
            },
        ),
{
    let required: u64 = archive_bytes.saturating_add(archive_bytes);
    if available < required {
        return Err(
            join4(
                "archive migration needs at least ",
                decimal(required).as_str(),
                " free bytes, found ",
                decimal(available).as_str(),
            ),
        );
    }
    Ok(())
}

/// Check a backup that was written.
///
/// # Errors
///
/// Returns an error when the backup is damaged.
pub fn check_backup(integrity: &str) -> (result: Result<(), String>)
    ensures
        reports(
            result,
            if integrity@ == "ok"@ {
                None
            } else {
                Some("migration backup integrity check failed: "@ + integrity@)
            },
        ),
{
    if !same_text(integrity, "ok") {
        return Err(join2("migration backup integrity check failed: ", integrity));
    }
    Ok(())
}

/// Check that the tables have not been brought up to date in the meantime.
///
/// # Errors
///
/// Returns an error when they have.
pub fn check_unmigrated(has_archive_ref: bool, has_completeness: bool) -> (result: Result<
    (),
    String,
>)
    ensures
        reports(
            result,
            if has_archive_ref || has_completeness {
                Some("archive schema changed while preparing indexed-output migration"@)
            } else {
                None
            },
        ),
{
    if has_archive_ref || has_completeness {
        return Err("archive schema changed while preparing indexed-output migration".to_owned());
    }
    Ok(())
}

/// What follows after references were drawn for all calls.
#[derive(Debug)]
pub enum ReferenceStep {
    Done,
    /// The calls that share a reference with an earlier one get another.
    Redraw,
    Fail(String),
}

/// Decide what follows after references were drawn, and drawn again `redraws` times.
pub fn reference_step(duplicates: u64, redraws: u8) -> (step: ReferenceStep)
    ensures
        if duplicates == 0 {
            step is Done
        } else if redraws < 3 {
            step is Redraw
        } else {
            step matches ReferenceStep::Fail(error) && error@
                == "archive reference collisions remained after three retries"@
        },
{
    if duplicates == 0 {
        ReferenceStep::Done
    } else if redraws < 3 {
        ReferenceStep::Redraw
    } else {
        ReferenceStep::Fail(
            "archive reference collisions remained after three retries".to_owned(),
        )
    }
}

/// How many rows the tables have.
#[derive(Clone, Copy, Debug, PartialEq, Eq, Structural)]
pub struct RowCounts {
    pub calls: u64,
    pub snapshots: u64,
}

/// What is wrong with tables that were brought up to date.
pub open spec fn migration_fault(
    before: RowCounts,
    after: RowCounts,
    invalid_references: u64,
    foreign_key_violations: u64,
) -> Option<Seq<char>> {
    if before != after {
        Some("archive row counts changed during migration"@)
    } else if invalid_references != 0 || foreign_key_violations != 0 {
        Some(
            "archive migration verification failed: "@ + digits(invalid_references as nat)
                + " invalid references, "@ + digits(foreign_key_violations as nat)
                + " foreign key violations"@,
        )
    } else {
        None
    }
}

/// Check tables that were brought up to date.
///
/// # Errors
///
/// Returns an error when rows were lost, or when a reference or a relation is not valid.
pub fn check_migrated(
    before: RowCounts,
    after: RowCounts,
    invalid_references: u64,
    foreign_key_violations: u64,
) -> (result: Result<(), String>)
    ensures
        reports(
            result,
            migration_fault(before, after, invalid_references, foreign_key_violations),
        ),
{
    if before != after {
        return Err("archive row counts changed during migration".to_owned());
    }
    if invalid_references != 0 || foreign_key_violations != 0 {
        return Err(
            join5(
                "archive migration verification failed: ",
                decimal(invalid_references).as_str(),
                " invalid references, ",
                decimal(foreign_key_violations).as_str(),
                " foreign key violations",
            ),
        );
    }
    Ok(())
}

/// The bytes of an archive and the files that belong to it.
pub fn archive_file_bytes(archive: u64, log: u64, index: u64) -> (bytes: u64)
    ensures
        bytes == if archive + log + index > u64::MAX {
            u64::MAX
        } else {
            (archive + log + index) as u64
        },
{
    archive.saturating_add(log).saturating_add(index)
}

/// Check that all of a payload was written.
///
/// # Errors
///
/// Returns an error when its length changed.
pub fn check_copied(expected: u64, copied: u64) -> (result: Result<(), String>)
    ensures
        reports(
            result,
            if copied != expected {
                Some(
                    "payload body length changed while storing it: expected "@ + digits(
                        expected as nat,
                    ) + ", copied "@ + digits(copied as nat),
                )
            } else {
                None
            },
        ),
{
    if copied != expected {
        return Err(
            join4(
                "payload body length changed while storing it: expected ",
                decimal(expected).as_str(),
                ", copied ",
                decimal(copied).as_str(),
            ),
        );
    }
    Ok(())
}

} // verus!
