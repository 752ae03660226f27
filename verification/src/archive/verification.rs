//! What an archive should look like, and a report of what is wrong with one.
use vstd::prelude::*;

use super::reference::{has_reference_form, is_archive_ref};
use crate::text::{
    decimal, digits, is_one_of, join2, join3, join4, octal, octal_digits, one_of, same_text,
    signed_decimal, signed_digits, texts,
};

verus! {

/// The version of the tables of an archive.
pub const SCHEMA_VERSION: i64 = 1;

/// The figures of an archive.
#[derive(Clone, Debug, PartialEq, Eq)]
pub struct ArchiveStats {
    pub sessions: i64,
    pub calls: i64,
    pub incomplete_calls: i64,
    pub logical_payload_bytes: i64,
    pub stored_payload_bytes: i64,
    pub database_bytes: u64,
    pub oldest_call_ms: Option<i64>,
    pub newest_call_ms: Option<i64>,
}

/// What a check of an archive found.
#[derive(Clone, Debug, PartialEq, Eq)]
pub struct VerifyReport {
    pub incomplete_calls: i64,
    pub errors: Vec<String>,
}

/// A stored snapshot, with the values as they stand in the table.
#[derive(Clone, Debug)]
pub struct SnapshotRow {
    pub subject: String,
    pub stage: String,
    pub media_type: String,
    pub completeness: Option<String>,
}

/// A stored call with its snapshots, with the values as they stand in the tables.
#[derive(Clone, Debug)]
pub struct CallRow {
    pub archive_ref: String,
    pub status: String,
    pub requires_streams: i64,
    pub finished_at_ms: Option<i64>,
    pub is_error: Option<i64>,
    pub executed: Option<i64>,
    pub snapshots: Vec<SnapshotRow>,
}

/// A stored payload, with the values as they stand in the table.
#[derive(Clone, Debug)]
pub struct PayloadRow {
    pub digest_length: i64,
    pub compression: String,
    pub uncompressed_length: i64,
    pub is_referenced: bool,
}

/// A value is neither zero nor one.
pub open spec fn is_no_flag(value: i64) -> bool {
    value != 0 && value != 1
}

/// What may be wrong with a snapshot.
#[derive(Clone, Copy, Debug, PartialEq, Eq, Structural)]
pub enum SnapshotFlaw {
    Subject,
    Completeness,
    Stage,
    MediaType,
}

impl SnapshotRow {
    /// The snapshot shows the contents of a stream, or all of the output.
    pub open spec fn is_output(self) -> bool {
        one_of(self.subject@, seq!["source_output", "stdout", "stderr"])
    }

    /// The snapshot has a flaw.
    pub open spec fn is_flawed(self, flaw: SnapshotFlaw) -> bool {
        match flaw {
            SnapshotFlaw::Subject => !one_of(
                self.subject@,
                seq!["input", "result", "result_text", "source_output", "stdout", "stderr"],
            ),
            SnapshotFlaw::Completeness => if self.subject@ == "result_text"@ {
                self.stage@ != "before"@ || (self.completeness matches Some(name) && !one_of(
                    name@,
                    seq!["complete", "incomplete", "unknown"],
                ))
            } else {
                self.completeness is Some
            },
            SnapshotFlaw::Stage => !one_of(self.stage@, seq!["before", "after"]),
            SnapshotFlaw::MediaType => {
                ||| one_of(self.subject@, seq!["input", "result"]) && self.media_type@
                    != "application/json"@
                ||| self.subject@ == "result_text"@ && self.media_type@
                    != "text/plain; charset=utf-8"@
                ||| self.is_output() && !one_of(
                    self.media_type@,
                    seq!["text/plain; charset=utf-8", "application/octet-stream"],
                )
            },
        }
    }

    /// Whether the snapshot has a flaw.
    pub fn has_flaw(&self, flaw: SnapshotFlaw) -> (flawed: bool)
        ensures
            flawed == self.is_flawed(flaw),
    {
        match flaw {
            SnapshotFlaw::Subject => !is_one_of(
                self.subject.as_str(),
                &["input", "result", "result_text", "source_output", "stdout", "stderr"],
            ),
            SnapshotFlaw::Completeness => if same_text(self.subject.as_str(), "result_text") {
                if !same_text(self.stage.as_str(), "before") {
                    true
                } else {
                    match &self.completeness {
                        Some(name) => !is_one_of(
                            name.as_str(),
                            &["complete", "incomplete", "unknown"],
                        ),
                        None => false,
                    }
                }
            } else {
                self.completeness.is_some()
            },
            SnapshotFlaw::Stage => !is_one_of(self.stage.as_str(), &["before", "after"]),
            SnapshotFlaw::MediaType => {
                (is_one_of(self.subject.as_str(), &["input", "result"]) && !same_text(
                    self.media_type.as_str(),
                    "application/json",
                )) || (same_text(self.subject.as_str(), "result_text") && !same_text(
                    self.media_type.as_str(),
                    "text/plain; charset=utf-8",
                )) || (is_one_of(
                    self.subject.as_str(),
                    &["source_output", "stdout", "stderr"],
                ) && !is_one_of(
                    self.media_type.as_str(),
                    &["text/plain; charset=utf-8", "application/octet-stream"],
                ))
            },
        }
    }
}

/// How many of some snapshots have a flaw.
pub open spec fn flawed_snapshots(snapshots: Seq<SnapshotRow>, flaw: SnapshotFlaw) -> nat
    decreases snapshots.len(),
{
    if snapshots.len() == 0 {
        0
    } else {
        flawed_snapshots(snapshots.drop_last(), flaw) + if snapshots.last().is_flawed(flaw) {
            1nat
        } else {
            0nat
        }
    }
}

/// How many of some snapshots show a stream.
pub open spec fn stream_rows(snapshots: Seq<SnapshotRow>) -> nat
    decreases snapshots.len(),
{
    if snapshots.len() == 0 {
        0
    } else {
        let last = snapshots.last();
        stream_rows(snapshots.drop_last()) + if one_of(last.subject@, seq!["stdout", "stderr"])
            && one_of(last.stage@, seq!["before", "after"]) {
            1nat
        } else {
            0nat
        }
    }
}

/// One of the snapshots shows a subject at a stage.
pub open spec fn has_row(snapshots: Seq<SnapshotRow>, subject: Seq<char>, stage: Seq<char>) -> bool {
    exists|i: int|
        0 <= i < snapshots.len() && (#[trigger] snapshots[i]).subject@ == subject
            && snapshots[i].stage@ == stage
}

/// What may be wrong with a call.
#[derive(Clone, Copy, Debug, PartialEq, Eq, Structural)]
pub enum CallFlaw {
    Status,
    RequiresStreams,
    IsError,
    Executed,
    Lifecycle,
    Reference,
    MissingInput,
    MissingFinalResult,
    MissingFirstResult,
    MissingStreams,
}

impl CallRow {
    /// The call ran and is finished.
    pub open spec fn ran(self) -> bool {
        self.status@ == "finished"@ && self.executed == Some(1i64)
    }

    /// The call has a flaw.
    pub open spec fn is_flawed(self, flaw: CallFlaw) -> bool {
        match flaw {
            CallFlaw::Status => !one_of(self.status@, seq!["started", "finished"]),
            CallFlaw::RequiresStreams => is_no_flag(self.requires_streams),
            CallFlaw::IsError => self.is_error matches Some(value) && is_no_flag(value),
            CallFlaw::Executed => self.executed matches Some(value) && is_no_flag(value),
            CallFlaw::Lifecycle => {
                ||| self.status@ == "started"@ && (self.finished_at_ms is Some || (self.is_error
                    is None) != (self.executed is None) || self.executed == Some(0i64))
                ||| self.status@ == "finished"@ && (self.finished_at_ms is None || self.is_error
                    is None || self.executed is None)
            },
            CallFlaw::Reference => !is_archive_ref(self.archive_ref@),
            CallFlaw::MissingInput => !has_row(self.snapshots@, "input"@, "before"@) || !has_row(
                self.snapshots@,
                "input"@,
                "after"@,
            ),
            CallFlaw::MissingFinalResult => self.status@ == "finished"@ && !has_row(
                self.snapshots@,
                "result"@,
                "after"@,
            ),
            CallFlaw::MissingFirstResult => self.ran() && !has_row(
                self.snapshots@,
                "result"@,
                "before"@,
            ),
            CallFlaw::MissingStreams => self.ran() && self.requires_streams == 1 && stream_rows(
                self.snapshots@,
            ) != 4,
        }
    }

    fn shows(&self, subject: &str, stage: &str) -> (found: bool)
        ensures
            found == has_row(self.snapshots@, subject@, stage@),
    {
        let mut i: usize = 0;
        while i < self.snapshots.len()
            invariant
                i <= self.snapshots@.len(),
                forall|j: int|
                    0 <= j < i ==> !((#[trigger] self.snapshots@[j]).subject@ == subject@
                        && self.snapshots@[j].stage@ == stage@),
            decreases self.snapshots@.len() - i,
        {
            if same_text(self.snapshots[i].subject.as_str(), subject) && same_text(
                self.snapshots[i].stage.as_str(),
                stage,
            ) {
                return true;
            }
            i += 1;
        }
        false
    }

    fn count_streams(&self) -> (count: u64)
        ensures
            count == stream_rows(self.snapshots@),
    {
        let mut count: u64 = 0;
        let mut i: usize = 0;
        assert(self.snapshots@.take(0) =~= Seq::empty());
        while i < self.snapshots.len()
            invariant
                i <= self.snapshots@.len(),
                count <= i,
                count == stream_rows(self.snapshots@.take(i as int)),
            decreases self.snapshots@.len() - i,
        {
            assert(self.snapshots@.take(i + 1).drop_last() =~= self.snapshots@.take(i as int));
            if is_one_of(self.snapshots[i].subject.as_str(), &["stdout", "stderr"]) && is_one_of(
                self.snapshots[i].stage.as_str(),
                &["before", "after"],
            ) {
                count += 1;
            }
            i += 1;
        }
        assert(self.snapshots@.take(i as int) =~= self.snapshots@);
        count
    }

    fn is_finished(&self) -> (finished: bool)
        ensures
            finished == (self.status@ == "finished"@),
    {
        same_text(self.status.as_str(), "finished")
    }

    fn has_run(&self) -> (ran: bool)
        ensures
            ran == self.ran(),
    {
        match self.executed {
            Some(value) => value == 1 && self.is_finished(),
            None => false,
        }
    }

    /// Whether the call has a flaw.
    pub fn has_flaw(&self, flaw: CallFlaw) -> (flawed: bool)
        ensures
            flawed == self.is_flawed(flaw),
    {
        match flaw {
            CallFlaw::Status => !is_one_of(self.status.as_str(), &["started", "finished"]),
            CallFlaw::RequiresStreams => self.requires_streams != 0 && self.requires_streams != 1,
            CallFlaw::IsError => match self.is_error {
                Some(value) => value != 0 && value != 1,
                None => false,
            },
            CallFlaw::Executed => match self.executed {
                Some(value) => value != 0 && value != 1,
                None => false,
            },
            CallFlaw::Lifecycle => {
                let idle = match self.executed {
                    Some(value) => value == 0,
                    None => false,
                };
                (same_text(self.status.as_str(), "started") && (self.finished_at_ms.is_some()
                    || self.is_error.is_none() != self.executed.is_none() || idle))
                    || (self.is_finished() && (self.finished_at_ms.is_none()
                    || self.is_error.is_none() || self.executed.is_none()))
            },
            CallFlaw::Reference => !has_reference_form(self.archive_ref.as_str()),
            CallFlaw::MissingInput => !self.shows("input", "before") || !self.shows(
                "input",
                "after",
            ),
            CallFlaw::MissingFinalResult => self.is_finished() && !self.shows("result", "after"),
            CallFlaw::MissingFirstResult => self.has_run() && !self.shows("result", "before"),
            CallFlaw::MissingStreams => self.has_run() && self.requires_streams == 1
                && self.count_streams() != 4,
        }
    }
}

/// How many of some calls have a flaw.
pub open spec fn flawed_calls(calls: Seq<CallRow>, flaw: CallFlaw) -> nat
    decreases calls.len(),
{
    if calls.len() == 0 {
        0
    } else {
        flawed_calls(calls.drop_last(), flaw) + if calls.last().is_flawed(flaw) {
            1nat
        } else {
            0nat
        }
    }
}

/// How many of some calls have not been finished.
pub open spec fn started_calls(calls: Seq<CallRow>) -> nat
    decreases calls.len(),
{
    if calls.len() == 0 {
        0
    } else {
        started_calls(calls.drop_last()) + if calls.last().status@ == "started"@ {
            1nat
        } else {
            0nat
        }
    }
}

/// How many snapshots of some calls have a flaw.
pub open spec fn flawed_in_calls(calls: Seq<CallRow>, flaw: SnapshotFlaw) -> nat
    decreases calls.len(),
{
    if calls.len() == 0 {
        0
    } else {
        flawed_in_calls(calls.drop_last(), flaw) + flawed_snapshots(calls.last().snapshots@, flaw)
    }
}

/// How many snapshots some calls have.
pub open spec fn snapshot_total(calls: Seq<CallRow>) -> nat
    decreases calls.len(),
{
    if calls.len() == 0 {
        0
    } else {
        snapshot_total(calls.drop_last()) + calls.last().snapshots@.len()
    }
}

/// Fewer calls have fewer snapshots.
proof fn lemma_snapshot_total(calls: Seq<CallRow>, count: int)
    requires
        0 <= count <= calls.len(),
    ensures
        snapshot_total(calls.take(count)) <= snapshot_total(calls),
    decreases calls.len(),
{
    if count == calls.len() {
        assert(calls.take(count) =~= calls);
    } else {
        assert(calls.drop_last().take(count) =~= calls.take(count));
        lemma_snapshot_total(calls.drop_last(), count);
    }
}

impl PayloadRow {
    /// A value of the payload is not one that it may have.
    pub open spec fn is_flawed(self) -> bool {
        self.digest_length != 32 || !one_of(self.compression@, seq!["none", "zstd"])
            || self.uncompressed_length < 0
    }

    /// Whether a value of the payload is not one that it may have.
    pub fn has_flaw(&self) -> (flawed: bool)
        ensures
            flawed == self.is_flawed(),
    {
        self.digest_length != 32 || !is_one_of(self.compression.as_str(), &["none", "zstd"])
            || self.uncompressed_length < 0
    }
}

/// How many of some payloads have values that they may not have.
pub open spec fn flawed_payloads(payloads: Seq<PayloadRow>) -> nat
    decreases payloads.len(),
{
    if payloads.len() == 0 {
        0
    } else {
        flawed_payloads(payloads.drop_last()) + if payloads.last().is_flawed() {
            1nat
        } else {
            0nat
        }
    }
}

/// How many of some payloads no snapshot shows.
pub open spec fn unreferenced_payloads(payloads: Seq<PayloadRow>) -> nat
    decreases payloads.len(),
{
    if payloads.len() == 0 {
        0
    } else {
        unreferenced_payloads(payloads.drop_last()) + if payloads.last().is_referenced {
            0nat
        } else {
            1nat
        }
    }
}

fn count_calls(calls: &Vec<CallRow>, flaw: CallFlaw) -> (count: u64)
    ensures
        count == flawed_calls(calls@, flaw),
{
    let mut count: u64 = 0;
    let mut i: usize = 0;
    assert(calls@.take(0) =~= Seq::empty());
    while i < calls.len()
        invariant
            i <= calls@.len(),
            count <= i,
            count == flawed_calls(calls@.take(i as int), flaw),
        decreases calls@.len() - i,
    {
        assert(calls@.take(i + 1).drop_last() =~= calls@.take(i as int));
        if calls[i].has_flaw(flaw) {
            count += 1;
        }
        i += 1;
    }
    assert(calls@.take(i as int) =~= calls@);
    count
}

fn count_started(calls: &Vec<CallRow>) -> (count: u64)
    ensures
        count == started_calls(calls@),
        count <= calls@.len(),
{
    let mut count: u64 = 0;
    let mut i: usize = 0;
    assert(calls@.take(0) =~= Seq::empty());
    while i < calls.len()
        invariant
            i <= calls@.len(),
            count <= i,
            count == started_calls(calls@.take(i as int)),
        decreases calls@.len() - i,
    {
        assert(calls@.take(i + 1).drop_last() =~= calls@.take(i as int));
        if same_text(calls[i].status.as_str(), "started") {
            count += 1;
        }
        i += 1;
    }
    assert(calls@.take(i as int) =~= calls@);
    count
}

fn count_snapshots(snapshots: &Vec<SnapshotRow>, flaw: SnapshotFlaw) -> (count: u64)
    ensures
        count == flawed_snapshots(snapshots@, flaw),
        count <= snapshots@.len(),
{
    let mut count: u64 = 0;
    let mut i: usize = 0;
    assert(snapshots@.take(0) =~= Seq::empty());
    while i < snapshots.len()
        invariant
            i <= snapshots@.len(),
            count <= i,
            count == flawed_snapshots(snapshots@.take(i as int), flaw),
        decreases snapshots@.len() - i,
    {
        assert(snapshots@.take(i + 1).drop_last() =~= snapshots@.take(i as int));
        if snapshots[i].has_flaw(flaw) {
            count += 1;
        }
        i += 1;
    }
    assert(snapshots@.take(i as int) =~= snapshots@);
    count
}

fn count_in_calls(calls: &Vec<CallRow>, flaw: SnapshotFlaw) -> (count: u64)
    requires
        snapshot_total(calls@) <= i64::MAX,
    ensures
        count == flawed_in_calls(calls@, flaw),
        count <= snapshot_total(calls@),
{
    let mut count: u64 = 0;
    let mut i: usize = 0;
    assert(calls@.take(0) =~= Seq::empty());
    while i < calls.len()
        invariant
            i <= calls@.len(),
            snapshot_total(calls@) <= i64::MAX,
            count <= snapshot_total(calls@.take(i as int)),
            count == flawed_in_calls(calls@.take(i as int), flaw),
        decreases calls@.len() - i,
    {
        assert(calls@.take(i + 1).drop_last() =~= calls@.take(i as int));
        proof {
            lemma_snapshot_total(calls@, i + 1);
        }
        let found: u64 = count_snapshots(&calls[i].snapshots, flaw);
        count = count + found;
        i += 1;
    }
    assert(calls@.take(i as int) =~= calls@);
    count
}

fn count_flawed_payloads(payloads: &Vec<PayloadRow>) -> (count: u64)
    ensures
        count == flawed_payloads(payloads@),
{
    let mut count: u64 = 0;
    let mut i: usize = 0;
    assert(payloads@.take(0) =~= Seq::empty());
    while i < payloads.len()
        invariant
            i <= payloads@.len(),
            count <= i,
            count == flawed_payloads(payloads@.take(i as int)),
        decreases payloads@.len() - i,
    {
        assert(payloads@.take(i + 1).drop_last() =~= payloads@.take(i as int));
        if payloads[i].has_flaw() {
            count += 1;
        }
        i += 1;
    }
    assert(payloads@.take(i as int) =~= payloads@);
    count
}

fn count_unreferenced(payloads: &Vec<PayloadRow>) -> (count: u64)
    ensures
        count == unreferenced_payloads(payloads@),
{
    let mut count: u64 = 0;
    let mut i: usize = 0;
    assert(payloads@.take(0) =~= Seq::empty());
    while i < payloads.len()
        invariant
            i <= payloads@.len(),
            count <= i,
            count == unreferenced_payloads(payloads@.take(i as int)),
        decreases payloads@.len() - i,
    {
        assert(payloads@.take(i + 1).drop_last() =~= payloads@.take(i as int));
        if !payloads[i].is_referenced {
            count += 1;
        }
        i += 1;
    }
    assert(payloads@.take(i as int) =~= payloads@);
    count
}

/// What a check of an archive reads. `loose_snapshots` belong to no stored call, and
/// `payload_errors` tells what is wrong with the contents of the payloads.
#[derive(Debug)]
pub struct ArchiveContents {
    pub integrity: String,
    pub foreign_key_violations: u64,
    pub version: i64,
    pub calls: Vec<CallRow>,
    pub loose_snapshots: Vec<SnapshotRow>,
    pub payloads: Vec<PayloadRow>,
    pub payload_errors: Vec<String>,
    pub directory_mode: u32,
    pub file_mode: u32,
}

/// One error, where something was found.
pub open spec fn counted(count: nat, what: Seq<char>) -> Seq<Seq<char>> {
    if count > 0 {
        seq![digits(count) + " "@ + what]
    } else {
        Seq::empty()
    }
}

/// One error, where something holds.
pub open spec fn when(holds: bool, error: Seq<char>) -> Seq<Seq<char>> {
    if holds {
        seq![error]
    } else {
        Seq::empty()
    }
}

impl ArchiveContents {
    /// How many snapshots have a flaw.
    pub open spec fn snapshots_with(self, flaw: SnapshotFlaw) -> nat {
        flawed_in_calls(self.calls@, flaw) + flawed_snapshots(self.loose_snapshots@, flaw)
    }

    /// The errors of the database as a whole.
    pub open spec fn database_errors(self) -> Seq<Seq<char>> {
        when(self.integrity@ != "ok"@, "SQLite integrity check: "@ + self.integrity@) + when(
            self.foreign_key_violations > 0,
            digits(self.foreign_key_violations as nat) + " foreign key violation(s)"@,
        ) + when(
            self.version != SCHEMA_VERSION,
            "archive schema version "@ + signed_digits(self.version as int) + ", expected "@
                + signed_digits(SCHEMA_VERSION as int),
        )
    }

    /// The errors of values that are not among those that they may be.
    pub open spec fn value_errors(self) -> Seq<Seq<char>> {
        counted(
            flawed_calls(self.calls@, CallFlaw::Status),
            "tool call(s) with invalid status"@,
        ) + counted(
            flawed_calls(self.calls@, CallFlaw::RequiresStreams),
            "tool call(s) with invalid requires_streams"@,
        ) + counted(
            flawed_calls(self.calls@, CallFlaw::IsError),
            "tool call(s) with invalid is_error"@,
        ) + counted(
            flawed_calls(self.calls@, CallFlaw::Executed),
            "tool call(s) with invalid executed"@,
        ) + counted(
            flawed_calls(self.calls@, CallFlaw::Lifecycle),
            "tool call(s) with inconsistent lifecycle state"@,
        ) + counted(
            self.snapshots_with(SnapshotFlaw::Subject),
            "snapshot(s) with invalid subject"@,
        ) + counted(
            self.snapshots_with(SnapshotFlaw::Completeness),
            "snapshot(s) with invalid source completeness"@,
        ) + counted(
            self.snapshots_with(SnapshotFlaw::Stage),
            "snapshot(s) with invalid stage"@,
        ) + counted(
            self.snapshots_with(SnapshotFlaw::MediaType),
            "snapshot(s) with invalid media type"@,
        ) + counted(
            flawed_calls(self.calls@, CallFlaw::Reference),
            "tool call(s) with invalid archive reference"@,
        ) + counted(
            flawed_payloads(self.payloads@),
            "payload(s) with invalid constrained values"@,
        )
    }

    /// The errors of calls that lack snapshots.
    pub open spec fn snapshot_errors(self) -> Seq<Seq<char>> {
        counted(
            flawed_calls(self.calls@, CallFlaw::MissingInput),
            "call(s) missing input snapshots"@,
        ) + counted(
            flawed_calls(self.calls@, CallFlaw::MissingFinalResult),
            "finished call(s) missing final results"@,
        ) + counted(
            flawed_calls(self.calls@, CallFlaw::MissingFirstResult),
            "executed call(s) missing pre-YARP results"@,
        ) + counted(
            flawed_calls(self.calls@, CallFlaw::MissingStreams),
            "shell call(s) missing complete stream snapshots"@,
        )
    }

    /// The errors of permissions that are too wide or too narrow.
    pub open spec fn permission_errors(self) -> Seq<Seq<char>> {
        when(
            self.directory_mode & 0o777 != 0o700,
            "archive directory mode is "@ + octal_digits((self.directory_mode & 0o777) as nat)
                + ", expected 700"@,
        ) + when(
            self.file_mode & 0o777 != 0o600,
            "archive file mode is "@ + octal_digits((self.file_mode & 0o777) as nat)
                + ", expected 600"@,
        )
    }

    /// All errors, in the order in which they are reported.
    pub open spec fn all_errors(self) -> Seq<Seq<char>> {
        self.database_errors() + self.value_errors() + self.snapshot_errors() + counted(
            unreferenced_payloads(self.payloads@),
            "unreferenced payload(s)"@,
        ) + texts(self.payload_errors@) + self.permission_errors()
    }

    /// The archive is small enough to be counted.
    pub open spec fn is_countable(self) -> bool {
        &&& self.calls@.len() <= i64::MAX
        &&& snapshot_total(self.calls@) + self.loose_snapshots@.len() <= i64::MAX
    }
}

fn add_counted(errors: &mut Vec<String>, count: u64, what: &str)
    ensures
        texts(final(errors)@) == texts(old(errors)@) + counted(count as nat, what@),
{
    let ghost before = texts(errors@);
    if count > 0 {
        errors.push(join3(decimal(count).as_str(), " ", what));
    }
    assert(texts(errors@) =~= before + counted(count as nat, what@));
}

fn add_error(errors: &mut Vec<String>, error: String)
    ensures
        texts(final(errors)@) == texts(old(errors)@).push(error@),
{
    let ghost before = texts(errors@);
    errors.push(error);
    assert(texts(errors@) =~= before.push(error@));
}

fn add_all(errors: &mut Vec<String>, more: Vec<String>)
    ensures
        texts(final(errors)@) == texts(old(errors)@) + texts(more@),
{
    let ghost before = errors@;
    let mut rest = more;
    errors.append(&mut rest);
    assert(texts(errors@) =~= texts(before) + texts(more@));
}

fn database_report(contents: &ArchiveContents) -> (errors: Vec<String>)
    ensures
        texts(errors@) == contents.database_errors(),
{
    let mut errors: Vec<String> = Vec::new();
    assert(texts(errors@) =~= Seq::empty());
    if !same_text(contents.integrity.as_str(), "ok") {
        add_error(
            &mut errors,
            join2("SQLite integrity check: ", contents.integrity.as_str()),
        );
    }
    if contents.foreign_key_violations > 0 {
        add_error(
            &mut errors,
            join2(
                decimal(contents.foreign_key_violations).as_str(),
                " foreign key violation(s)",
            ),
        );
    }
    if contents.version != SCHEMA_VERSION {
        add_error(
            &mut errors,
            join4(
                "archive schema version ",
                signed_decimal(contents.version).as_str(),
                ", expected ",
                signed_decimal(SCHEMA_VERSION).as_str(),
            ),
        );
    }
    assert(texts(errors@) =~= contents.database_errors());
    errors
}

fn count_with(contents: &ArchiveContents, flaw: SnapshotFlaw) -> (count: u64)
    requires
        contents.is_countable(),
    ensures
        count == contents.snapshots_with(flaw),
{
    let within: u64 = count_in_calls(&contents.calls, flaw);
    let loose: u64 = count_snapshots(&contents.loose_snapshots, flaw);
    within + loose
}

/// List the errors of values that are not among those that they may be.
pub fn verify_constrained_values(contents: &ArchiveContents) -> (list: Vec<String>)
    requires
        contents.is_countable(),
    ensures
        texts(list@) == contents.value_errors(),
{
    let calls = &contents.calls;
    let mut list: Vec<String> = Vec::new();
    let errors = &mut list;
    let invalid_status = count_calls(calls, CallFlaw::Status);
    add_counted(errors, invalid_status, "tool call(s) with invalid status");
    assert(texts(errors@) =~= counted(
        invalid_status as nat,
        "tool call(s) with invalid status"@,
    ));
    add_counted(
        errors,
        count_calls(calls, CallFlaw::RequiresStreams),
        "tool call(s) with invalid requires_streams",
    );
    add_counted(
        errors,
        count_calls(calls, CallFlaw::IsError),
        "tool call(s) with invalid is_error",
    );
    add_counted(
        errors,
        count_calls(calls, CallFlaw::Executed),
        "tool call(s) with invalid executed",
    );
    add_counted(
        errors,
        count_calls(calls, CallFlaw::Lifecycle),
        "tool call(s) with inconsistent lifecycle state",
    );
    add_counted(
        errors,
        count_with(contents, SnapshotFlaw::Subject),
        "snapshot(s) with invalid subject",
    );
    add_counted(
        errors,
        count_with(contents, SnapshotFlaw::Completeness),
        "snapshot(s) with invalid source completeness",
    );
    add_counted(
        errors,
        count_with(contents, SnapshotFlaw::Stage),
        "snapshot(s) with invalid stage",
    );
    add_counted(
        errors,
        count_with(contents, SnapshotFlaw::MediaType),
        "snapshot(s) with invalid media type",
    );
    add_counted(
        errors,
        count_calls(calls, CallFlaw::Reference),
        "tool call(s) with invalid archive reference",
    );
    add_counted(
        errors,
        count_flawed_payloads(&contents.payloads),
        "payload(s) with invalid constrained values",
    );
    list
}

/// List the errors of calls that lack snapshots.
pub fn verify_snapshot_sets(contents: &ArchiveContents) -> (list: Vec<String>)
    ensures
        texts(list@) == contents.snapshot_errors(),
{
    let calls = &contents.calls;
    let mut list: Vec<String> = Vec::new();
    let errors = &mut list;
    let missing_input = count_calls(calls, CallFlaw::MissingInput);
    add_counted(errors, missing_input, "call(s) missing input snapshots");
    assert(texts(errors@) =~= counted(missing_input as nat, "call(s) missing input snapshots"@));
    add_counted(
        errors,
        count_calls(calls, CallFlaw::MissingFinalResult),
        "finished call(s) missing final results",
    );
    add_counted(
        errors,
        count_calls(calls, CallFlaw::MissingFirstResult),
        "executed call(s) missing pre-YARP results",
    );
    add_counted(
        errors,
        count_calls(calls, CallFlaw::MissingStreams),
        "shell call(s) missing complete stream snapshots",
    );
    list
}

/// List the errors of permissions that are too wide or too narrow.
pub fn verify_permissions(contents: &ArchiveContents) -> (errors: Vec<String>)
    ensures
        texts(errors@) == contents.permission_errors(),
{
    let mut errors: Vec<String> = Vec::new();
    let directory: u32 = contents.directory_mode & 0o777;
    if directory != 0o700 {
        add_error(
            &mut errors,
            join3("archive directory mode is ", octal(directory).as_str(), ", expected 700"),
        );
    }
    let file: u32 = contents.file_mode & 0o777;
    if file != 0o600 {
        add_error(
            &mut errors,
            join3("archive file mode is ", octal(file).as_str(), ", expected 600"),
        );
    }
    assert(texts(errors@) =~= contents.permission_errors());
    errors
}

/// Check an archive, and report what is wrong with it.
pub fn verify(contents: &ArchiveContents) -> (report: VerifyReport)
    requires
        contents.is_countable(),
    ensures
        report.incomplete_calls == started_calls(contents.calls@),
        texts(report.errors@) == contents.all_errors(),
{
    let mut errors = database_report(contents);
    add_all(&mut errors, verify_constrained_values(contents));
    add_all(&mut errors, verify_snapshot_sets(contents));
    add_counted(
        &mut errors,
        count_unreferenced(&contents.payloads),
        "unreferenced payload(s)",
    );
    add_all(&mut errors, contents.payload_errors.clone());
    add_all(&mut errors, verify_permissions(contents));
    VerifyReport { incomplete_calls: count_started(&contents.calls) as i64, errors }
}

} // verus!
