//! What can be searched and restored of a call, and which files may be archived.
use vstd::prelude::*;

use super::calls::{CallModel, Stage, StoredCall, Subject, has_snapshot, snapshot_place};
use super::model::{SourceCompleteness, SourceName, VerifiedSource};
use super::payload::{restore_payload, restores_to};
use super::reference::{is_archive_ref, validate_archive_ref};
use crate::frames::MAX_FRAME_BYTES;
use crate::text::{decimal, digits, join2, join3, join4, reports};

verus! {

/// A source that was chosen, before its contents are read.
#[derive(Clone, Copy, Debug, PartialEq, Eq, Structural)]
pub struct ChosenSource {
    pub name: SourceName,
    pub completeness: SourceCompleteness,
}

/// The sources of a call that are searched: its streams, else the text that a reducer got, else
/// all of the output.
pub open spec fn searchable(record: CallModel) -> Result<Seq<ChosenSource>, Seq<char>> {
    let stdout = has_snapshot(record.snapshots, Subject::Stdout, Stage::Before);
    let stderr = has_snapshot(record.snapshots, Subject::Stderr, Stage::Before);
    let whole = |name: SourceName| ChosenSource { name, completeness: SourceCompleteness::Complete };
    if stdout && stderr {
        Ok(seq![whole(SourceName::Stdout), whole(SourceName::Stderr)])
    } else if stdout {
        Ok(seq![whole(SourceName::Stdout)])
    } else if stderr {
        Ok(seq![whole(SourceName::Stderr)])
    } else if has_snapshot(record.snapshots, Subject::ResultText, Stage::Before) {
        let place = snapshot_place(record.snapshots, Subject::ResultText, Stage::Before);
        match record.snapshots[place].completeness {
            Some(completeness) => Ok(
                seq![ChosenSource { name: SourceName::ResultText, completeness }],
            ),
            None => Err(
                "could not read result text completeness: Invalid column type Null at index: 0, name: source_completeness"@,
            ),
        }
    } else if has_snapshot(record.snapshots, Subject::SourceOutput, Stage::Before) {
        Ok(seq![whole(SourceName::SourceOutput)])
    } else {
        Err("archive reference "@ + record.archive_ref + " has no searchable source"@)
    }
}

/// Choose the sources of a call that are searched.
///
/// # Errors
///
/// Returns an error when the reference is malformed, when no call was found, or when the call has
/// no source.
pub fn choose_sources(archive_ref: &str, found: Result<StoredCall, String>) -> (result: Result<
    Vec<ChosenSource>,
    String,
>)
    requires
        found matches Ok(record) ==> record@.well_formed() && record@.archive_ref == archive_ref@,
    ensures
        if !is_archive_ref(archive_ref@) {
            result matches Err(error) && error@
                == "archive reference must be yr_ followed by 32 lowercase hexadecimal digits"@
        } else {
            match found {
                Err(reason) => result matches Err(error) && error@
                    == "could not find archive reference "@ + archive_ref@ + ": "@ + reason@,
                Ok(record) => match searchable(record@) {
                    Ok(sources) => result matches Ok(chosen) && chosen@ == sources,
                    Err(message) => result matches Err(error) && error@ == message,
                },
            }
        },
{
    if let Err(error) = validate_archive_ref(archive_ref) {
        return Err(error);
    }
    let record = match found {
        Ok(record) => record,
        Err(reason) => {
            return Err(
                join4(
                    "could not find archive reference ",
                    archive_ref,
                    ": ",
                    reason.as_str(),
                ),
            );
        },
    };
    let mut chosen: Vec<ChosenSource> = Vec::new();
    let stdout = record.has(Subject::Stdout, Stage::Before);
    let stderr = record.has(Subject::Stderr, Stage::Before);
    if stdout || stderr {
        if stdout {
            chosen.push(
                ChosenSource {
                    name: SourceName::Stdout,
                    completeness: SourceCompleteness::Complete,
                },
            );
        }
        if stderr {
            chosen.push(
                ChosenSource {
                    name: SourceName::Stderr,
                    completeness: SourceCompleteness::Complete,
                },
            );
        }
        assert(Ok::<Seq<ChosenSource>, Seq<char>>(chosen@) == searchable(record@)) by {
            assert(searchable(record@)->Ok_0 =~= chosen@);
        }
        return Ok(chosen);
    }
    if let Some(place) = record.find_snapshot(Subject::ResultText, Stage::Before) {
        assert(record@.snapshots[place as int] == record.snapshots@[place as int]@);
        return match record.snapshots[place].completeness {
            Some(completeness) => {
                chosen.push(ChosenSource { name: SourceName::ResultText, completeness });
                assert(searchable(record@)->Ok_0 =~= chosen@);
                Ok(chosen)
            },
            None => Err(
                "could not read result text completeness: Invalid column type Null at index: 0, name: source_completeness".to_owned(),
            ),
        };
    }
    if record.has(Subject::SourceOutput, Stage::Before) {
        chosen.push(
            ChosenSource {
                name: SourceName::SourceOutput,
                completeness: SourceCompleteness::Complete,
            },
        );
        assert(searchable(record@)->Ok_0 =~= chosen@);
        return Ok(chosen);
    }
    Err(join3("archive reference ", archive_ref, " has no searchable source"))
}

/// The stored contents of a snapshot.
#[derive(Debug)]
pub struct StoredContents {
    pub media_type: String,
    pub sha: Vec<u8>,
    pub compression: String,
    pub uncompressed_length: i64,
    pub body: Vec<u8>,
}

/// What a chosen source gives.
pub open spec fn is_verified_source(
    result: Result<VerifiedSource, String>,
    chosen: ChosenSource,
    stored: StoredContents,
) -> bool {
    let label = chosen.name.text() + "/before"@;
    if stored.uncompressed_length < 0 {
        result matches Err(error) && error@ == "invalid "@ + label + " byte length"@
    } else {
        exists|restored: Result<Vec<u8>, String>| #[trigger]
            restores_to(
                restored,
                label,
                stored.sha@,
                stored.compression@,
                stored.uncompressed_length,
                stored.body@,
            ) && match restored {
                Ok(body) => result matches Ok(source) && source.name == chosen.name
                    && source.completeness == chosen.completeness && source.media_type@
                    == stored.media_type@ && source.body@ == body@,
                Err(message) => result matches Err(error) && error@ == message@,
            }
    }
}

/// Read a chosen source, and check its contents.
///
/// # Errors
///
/// Returns an error when the contents cannot be restored or are not those that were stored.
pub fn verified_source(chosen: ChosenSource, stored: &StoredContents) -> (result: Result<
    VerifiedSource,
    String,
>)
    ensures
        is_verified_source(result, chosen, *stored),
{
    let label = join2(chosen.name.as_str(), "/before");
    if stored.uncompressed_length < 0 {
        return Err(join3("invalid ", label.as_str(), " byte length"));
    }
    let restored = restore_payload(
        label.as_str(),
        stored.sha.as_slice(),
        stored.compression.as_str(),
        stored.uncompressed_length,
        stored.body.as_slice(),
    );
    match restored {
        Ok(body) => Ok(
            VerifiedSource {
                name: chosen.name,
                completeness: chosen.completeness,
                media_type: stored.media_type.clone(),
                body,
            },
        ),
        Err(error) => Err(error),
    }
}

/// What restoring both streams of a call gives.
pub open spec fn is_restoration(
    result: Result<(Vec<u8>, Vec<u8>), String>,
    stdout: StoredContents,
    stderr: StoredContents,
) -> bool {
    exists|first: Result<Vec<u8>, String>, second: Result<Vec<u8>, String>|
        #![trigger both(first, second)]
        both(first, second) == result && restores_to(
            first,
            "stdout/before"@,
            stdout.sha@,
            stdout.compression@,
            stdout.uncompressed_length,
            stdout.body@,
        ) && restores_to(
            second,
            "stderr/before"@,
            stderr.sha@,
            stderr.compression@,
            stderr.uncompressed_length,
            stderr.body@,
        )
}

/// Restore both streams of a call. Nothing is given unless both are intact.
///
/// # Errors
///
/// Returns an error when a stream cannot be restored or is not what was stored.
pub fn restore_streams(stdout: &StoredContents, stderr: &StoredContents) -> (result: Result<
    (Vec<u8>, Vec<u8>),
    String,
>)
    ensures
        is_restoration(result, *stdout, *stderr),
{
    let first = restore_payload(
        "stdout/before",
        stdout.sha.as_slice(),
        stdout.compression.as_str(),
        stdout.uncompressed_length,
        stdout.body.as_slice(),
    );
    let second = restore_payload(
        "stderr/before",
        stderr.sha.as_slice(),
        stderr.compression.as_str(),
        stderr.uncompressed_length,
        stderr.body.as_slice(),
    );
    let ghost outcome = both(first, second);
    match first {
        Err(error) => Err(error),
        Ok(left) => match second {
            Err(error) => Err(error),
            Ok(right) => Ok((left, right)),
        },
    }
}

/// Two results in one: the first error, or both values.
pub open spec fn both(
    first: Result<Vec<u8>, String>,
    second: Result<Vec<u8>, String>,
) -> Result<(Vec<u8>, Vec<u8>), String> {
    match (first, second) {
        (Err(error), _) => Err(error),
        (Ok(_), Err(error)) => Err(error),
        (Ok(left), Ok(right)) => Ok((left, right)),
    }
}

/// What the file system says of a file that is archived.
#[derive(Clone, Copy, Debug, PartialEq, Eq, Structural)]
pub struct SourceFacts {
    pub is_symlink: bool,
    pub is_regular: bool,
    pub owner: u32,
    pub mode: u32,
    pub device: u64,
    pub inode: u64,
    pub length: u64,
    pub modified_s: i64,
    pub modified_ns: i64,
}

/// What is wrong with a file that is archived.
pub open spec fn source_fault(facts: SourceFacts, owner: u32) -> Option<Seq<char>> {
    if facts.is_symlink || !facts.is_regular {
        Some("archive source is not a real regular file"@)
    } else if facts.owner != owner {
        Some("archive source has the wrong owner"@)
    } else if facts.mode & 0o077 != 0 {
        Some("archive source is accessible by other users"@)
    } else if facts.length > MAX_FRAME_BYTES {
        Some(
            "archive source is "@ + digits(facts.length as nat) + " bytes; maximum is "@ + digits(
                MAX_FRAME_BYTES as nat,
            ),
        )
    } else {
        None
    }
}

/// Check a file that is archived.
///
/// # Errors
///
/// Returns an error when it is no regular file, belongs to another user, may be used by others or
/// is too long.
pub fn require_private_source(facts: &SourceFacts, owner: u32) -> (result: Result<(), String>)
    ensures
        reports(result, source_fault(*facts, owner)),
{
    if facts.is_symlink || !facts.is_regular {
        return Err("archive source is not a real regular file".to_owned());
    }
    if facts.owner != owner {
        return Err("archive source has the wrong owner".to_owned());
    }
    if facts.mode & 0o077 != 0 {
        return Err("archive source is accessible by other users".to_owned());
    }
    if facts.length > MAX_FRAME_BYTES {
        return Err(
            join4(
                "archive source is ",
                decimal(facts.length).as_str(),
                " bytes; maximum is ",
                decimal(MAX_FRAME_BYTES).as_str(),
            ),
        );
    }
    Ok(())
}

/// It is the same file, and it has not been written.
pub open spec fn is_same_source(left: SourceFacts, right: SourceFacts) -> bool {
    left.device == right.device && left.inode == right.inode && left.length == right.length
        && left.modified_s == right.modified_s && left.modified_ns == right.modified_ns
}

/// Check that a file is the one that was looked at before, and has not been written since.
///
/// # Errors
///
/// Returns an error when it is another one or has been written.
pub fn require_same_source(expected: &SourceFacts, actual: &SourceFacts) -> (result: Result<
    (),
    String,
>)
    ensures
        reports(
            result,
            if is_same_source(*expected, *actual) {
                None
            } else {
                Some("archive source changed while being read"@)
            },
        ),
{
    if expected.device != actual.device || expected.inode != actual.inode || expected.length
        != actual.length || expected.modified_s != actual.modified_s || expected.modified_ns
        != actual.modified_ns {
        return Err("archive source changed while being read".to_owned());
    }
    Ok(())
}

} // verus!
