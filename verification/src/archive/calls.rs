//! The record of an archived call: what it was, how it ended, and the snapshots taken of it.
use vstd::prelude::*;

use super::model::{CallIdentity, SourceCompleteness};
use super::reference::{is_archive_ref, validate_archive_ref};
use crate::bytes::{copy, same_bytes};
use crate::text::{
    decimal, digits, join2, join3, join4, reports, same_optional, same_text,
};

verus! {

/// What a snapshot shows.
#[derive(Clone, Copy, Debug, PartialEq, Eq, Structural)]
pub enum Subject {
    Input,
    ToolResult,
    ResultText,
    SourceOutput,
    Stdout,
    Stderr,
}

impl Subject {
    /// The stored name of the subject.
    pub open spec fn text(self) -> Seq<char> {
        match self {
            Subject::Input => "input"@,
            Subject::ToolResult => "result"@,
            Subject::ResultText => "result_text"@,
            Subject::SourceOutput => "source_output"@,
            Subject::Stdout => "stdout"@,
            Subject::Stderr => "stderr"@,
        }
    }

    /// The stored name of the subject.
    pub fn as_str(self) -> (name: &'static str)
        ensures
            name@ == self.text(),
    {
        match self {
            Subject::Input => "input",
            Subject::ToolResult => "result",
            Subject::ResultText => "result_text",
            Subject::SourceOutput => "source_output",
            Subject::Stdout => "stdout",
            Subject::Stderr => "stderr",
        }
    }
}

/// Whether a snapshot was taken before or after the output was reduced.
#[derive(Clone, Copy, Debug, PartialEq, Eq, Structural)]
pub enum Stage {
    Before,
    After,
}

impl Stage {
    /// The stored name of the stage.
    pub open spec fn text(self) -> Seq<char> {
        match self {
            Stage::Before => "before"@,
            Stage::After => "after"@,
        }
    }

    /// The stored name of the stage.
    pub fn as_str(self) -> (name: &'static str)
        ensures
            name@ == self.text(),
    {
        match self {
            Stage::Before => "before",
            Stage::After => "after",
        }
    }
}

/// One snapshot of a call. Its contents are found by their digest.
#[derive(Clone, Debug)]
pub struct Snapshot {
    pub subject: Subject,
    pub stage: Stage,
    pub media_type: String,
    pub completeness: Option<SourceCompleteness>,
    pub captured_at_ms: i64,
    pub payload_sha256: Vec<u8>,
}

/// The contents of a [`Snapshot`].
#[verifier::ext_equal]
pub struct SnapshotModel {
    pub subject: Subject,
    pub stage: Stage,
    pub media_type: Seq<char>,
    pub completeness: Option<SourceCompleteness>,
    pub captured_at_ms: i64,
    pub payload: Seq<u8>,
}

impl View for Snapshot {
    type V = SnapshotModel;

    open spec fn view(&self) -> SnapshotModel {
        SnapshotModel {
            subject: self.subject,
            stage: self.stage,
            media_type: self.media_type@,
            completeness: self.completeness,
            captured_at_ms: self.captured_at_ms,
            payload: self.payload_sha256@,
        }
    }
}

/// The contents of some snapshots.
pub open spec fn models(snapshots: Seq<Snapshot>) -> Seq<SnapshotModel> {
    snapshots.map_values(|snapshot: Snapshot| snapshot@)
}

/// The contents of an optional text.
pub open spec fn optional(value: Option<String>) -> Option<Seq<char>> {
    match value {
        Some(text) => Some(text@),
        None => None,
    }
}

/// The contents of a [`CallIdentity`].
#[verifier::ext_equal]
pub struct IdentityModel {
    pub source_call_id: Seq<char>,
    pub tool_name: Seq<char>,
    pub provider: Option<Seq<char>>,
    pub model: Option<Seq<char>>,
    pub working_directory: Option<Seq<char>>,
    pub started_at_ms: i64,
    pub requires_streams: bool,
}

impl View for CallIdentity {
    type V = IdentityModel;

    open spec fn view(&self) -> IdentityModel {
        IdentityModel {
            source_call_id: self.source_call_id@,
            tool_name: self.tool_name@,
            provider: optional(self.provider),
            model: optional(self.model),
            working_directory: optional(self.working_directory),
            started_at_ms: self.started_at_ms,
            requires_streams: self.requires_streams,
        }
    }
}

/// The stored record of a call.
#[derive(Clone, Debug)]
pub struct StoredCall {
    pub archive_ref: String,
    pub call: CallIdentity,
    pub status: String,
    pub finished_at_ms: Option<i64>,
    pub is_error: Option<bool>,
    pub executed: Option<bool>,
    pub snapshots: Vec<Snapshot>,
}

/// The contents of a [`StoredCall`].
#[verifier::ext_equal]
pub struct CallModel {
    pub archive_ref: Seq<char>,
    pub call: IdentityModel,
    pub status: Seq<char>,
    pub finished_at_ms: Option<i64>,
    pub is_error: Option<bool>,
    pub executed: Option<bool>,
    pub snapshots: Seq<SnapshotModel>,
}

impl View for StoredCall {
    type V = CallModel;

    open spec fn view(&self) -> CallModel {
        CallModel {
            archive_ref: self.archive_ref@,
            call: self.call@,
            status: self.status@,
            finished_at_ms: self.finished_at_ms,
            is_error: self.is_error,
            executed: self.executed,
            snapshots: models(self.snapshots@),
        }
    }
}

/// The snapshot shows a subject at a stage.
pub open spec fn is_of(snapshot: SnapshotModel, subject: Subject, stage: Stage) -> bool {
    snapshot.subject == subject && snapshot.stage == stage
}

/// One of the snapshots shows a subject at a stage.
pub open spec fn has_snapshot(
    snapshots: Seq<SnapshotModel>,
    subject: Subject,
    stage: Stage,
) -> bool {
    exists|i: int| 0 <= i < snapshots.len() && is_of(#[trigger] snapshots[i], subject, stage)
}

/// The place of a snapshot that shows a subject at a stage.
pub open spec fn snapshot_place(
    snapshots: Seq<SnapshotModel>,
    subject: Subject,
    stage: Stage,
) -> int {
    choose|i: int| 0 <= i < snapshots.len() && is_of(#[trigger] snapshots[i], subject, stage)
}

/// No two snapshots show the same subject at the same stage.
pub open spec fn are_distinct(snapshots: Seq<SnapshotModel>) -> bool {
    forall|i: int, j: int|
        0 <= i < j < snapshots.len() ==> !is_of(
            #[trigger] snapshots[i],
            (#[trigger] snapshots[j]).subject,
            snapshots[j].stage,
        )
}

/// How many snapshots show one of the two streams.
pub open spec fn stream_count(snapshots: Seq<SnapshotModel>) -> nat
    decreases snapshots.len(),
{
    if snapshots.len() == 0 {
        0
    } else {
        let last = snapshots.last();
        stream_count(snapshots.drop_last()) + if last.subject == Subject::Stdout || last.subject
            == Subject::Stderr {
            1nat
        } else {
            0nat
        }
    }
}

impl CallModel {
    /// The record is one that the archive can hold.
    pub open spec fn well_formed(self) -> bool {
        are_distinct(self.snapshots)
    }

    /// The record after a snapshot was stored: one that is there already stays, and must have the
    /// same contents and completeness.
    pub open spec fn with_snapshot(self, snapshot: SnapshotModel) -> Result<CallModel, Seq<char>> {
        if has_snapshot(self.snapshots, snapshot.subject, snapshot.stage) {
            let place = snapshot_place(self.snapshots, snapshot.subject, snapshot.stage);
            let existing = self.snapshots[place];
            if existing.payload == snapshot.payload && existing.completeness
                == snapshot.completeness {
                Ok(self)
            } else {
                Err(
                    "snapshot "@ + snapshot.subject.text() + "/"@ + snapshot.stage.text()
                        + " already exists with different content or completeness"@,
                )
            }
        } else {
            Ok(CallModel { snapshots: self.snapshots.push(snapshot), ..self })
        }
    }

    /// The record after a snapshot took the place of another one.
    pub open spec fn with_replaced(self, snapshot: SnapshotModel) -> CallModel {
        let place = snapshot_place(self.snapshots, snapshot.subject, snapshot.stage);
        CallModel {
            snapshots: self.snapshots.update(
                place,
                SnapshotModel {
                    completeness: self.snapshots[place].completeness,
                    ..snapshot
                },
            ),
            ..self
        }
    }

    /// What keeps the call from being finished.
    pub open spec fn completion_fault(self, require_pre_result: bool) -> Option<Seq<char>> {
        let streams = stream_count(self.snapshots);
        if require_pre_result && self.call.requires_streams && streams != 4 {
            Some(
                "shell tool call is missing stream snapshots: found "@ + digits(streams)
                    + " of 4"@,
            )
        } else if require_pre_result && !has_snapshot(
            self.snapshots,
            Subject::ToolResult,
            Stage::Before,
        ) {
            Some("executed tool call is missing its pre-YARP result"@)
        } else {
            None
        }
    }

    /// What is wrong with the status of the call.
    pub open spec fn status_fault(self, expected: Seq<char>) -> Option<Seq<char>> {
        if self.status != expected {
            Some(
                "tool call "@ + self.call.source_call_id + " has status "@ + self.status
                    + ", expected "@ + expected,
            )
        } else {
            None
        }
    }
}

/// In a well-formed record, the place of a snapshot is the only one.
pub proof fn lemma_only_place(snapshots: Seq<SnapshotModel>, place: int)
    requires
        are_distinct(snapshots),
        0 <= place < snapshots.len(),
    ensures
        has_snapshot(snapshots, snapshots[place].subject, snapshots[place].stage),
        snapshot_place(snapshots, snapshots[place].subject, snapshots[place].stage) == place,
{
    let subject = snapshots[place].subject;
    let stage = snapshots[place].stage;
    assert(is_of(snapshots[place], subject, stage));
    let found = snapshot_place(snapshots, subject, stage);
    assert(0 <= found < snapshots.len() && is_of(snapshots[found], subject, stage));
}

/// Storing a snapshot keeps the record well-formed.
pub proof fn lemma_stored_well_formed(call: CallModel, snapshot: SnapshotModel)
    requires
        call.well_formed(),
    ensures
        call.with_snapshot(snapshot) matches Ok(after) ==> after.well_formed(),
{
}

/// A snapshot that is stored twice is stored once: the second time changes nothing.
pub proof fn lemma_storing_twice(call: CallModel, snapshot: SnapshotModel)
    requires
        call.well_formed(),
    ensures
        call.with_snapshot(snapshot) matches Ok(after) ==> after.with_snapshot(snapshot) == Ok::<
            CallModel,
            Seq<char>,
        >(after),
{
    if let Ok(after) = call.with_snapshot(snapshot) {
        lemma_stored_well_formed(call, snapshot);
        if !has_snapshot(call.snapshots, snapshot.subject, snapshot.stage) {
            let place = call.snapshots.len() as int;
            assert(after.snapshots[place] == snapshot);
            lemma_only_place(after.snapshots, place);
        }
    }
}

/// What was stored stays: a snapshot of another subject or stage is not touched, and no snapshot
/// is lost.
pub proof fn lemma_storing_keeps_others(call: CallModel, snapshot: SnapshotModel, place: int)
    requires
        0 <= place < call.snapshots.len(),
    ensures
        call.with_snapshot(snapshot) matches Ok(after) ==> after.snapshots.len()
            >= call.snapshots.len() && after.snapshots[place] == call.snapshots[place],
{
}

/// A copy of an identity.
pub fn copy_identity(call: &CallIdentity) -> (duplicate: CallIdentity)
    ensures
        duplicate@ == call@,
{
    CallIdentity {
        source_call_id: call.source_call_id.clone(),
        tool_name: call.tool_name.clone(),
        provider: call.provider.clone(),
        model: call.model.clone(),
        working_directory: call.working_directory.clone(),
        started_at_ms: call.started_at_ms,
        requires_streams: call.requires_streams,
    }
}

impl StoredCall {
    /// The record of a call that has just begun.
    pub fn started(archive_ref: String, call: &CallIdentity) -> (record: StoredCall)
        ensures
            record@ == (CallModel {
                archive_ref: archive_ref@,
                call: call@,
                status: "started"@,
                finished_at_ms: None,
                is_error: None,
                executed: None,
                snapshots: Seq::empty(),
            }),
            record@.well_formed(),
    {
        let record = StoredCall {
            archive_ref,
            call: copy_identity(call),
            status: "started".to_owned(),
            finished_at_ms: None,
            is_error: None,
            executed: None,
            snapshots: Vec::new(),
        };
        assert(models(record.snapshots@) =~= Seq::empty());
        record
    }

    /// Find the snapshot that shows a subject at a stage.
    pub fn find_snapshot(&self, subject: Subject, stage: Stage) -> (found: Option<usize>)
        requires
            self@.well_formed(),
        ensures
            match found {
                Some(place) => has_snapshot(self@.snapshots, subject, stage) && place
                    < self.snapshots@.len() && place == snapshot_place(
                    self@.snapshots,
                    subject,
                    stage,
                ),
                None => !has_snapshot(self@.snapshots, subject, stage),
            },
    {
        let mut i: usize = 0;
        while i < self.snapshots.len()
            invariant
                i <= self.snapshots@.len(),
                self@.well_formed(),
                forall|j: int| 0 <= j < i ==> !is_of(#[trigger] self@.snapshots[j], subject, stage),
            decreases self.snapshots@.len() - i,
        {
            assert(self@.snapshots[i as int] == self.snapshots@[i as int]@);
            if self.snapshots[i].subject == subject && self.snapshots[i].stage == stage {
                proof {
                    lemma_only_place(self@.snapshots, i as int);
                }
                return Some(i);
            }
            i += 1;
        }
        None
    }

    /// Whether a snapshot shows a subject at a stage.
    pub fn has(&self, subject: Subject, stage: Stage) -> (found: bool)
        requires
            self@.well_formed(),
        ensures
            found == has_snapshot(self@.snapshots, subject, stage),
    {
        self.find_snapshot(subject, stage).is_some()
    }

    /// Whether exactly this snapshot is in the record.
    pub fn holds_snapshot(&self, snapshot: &Snapshot) -> (held: bool)
        ensures
            held == self@.snapshots.contains(snapshot@),
    {
        let mut i: usize = 0;
        while i < self.snapshots.len()
            invariant
                i <= self.snapshots@.len(),
                forall|j: int| 0 <= j < i ==> #[trigger] self@.snapshots[j] != snapshot@,
            decreases self.snapshots@.len() - i,
        {
            let stored = &self.snapshots[i];
            assert(self@.snapshots[i as int] == stored@);
            if stored.subject == snapshot.subject && stored.stage == snapshot.stage && same_text(
                stored.media_type.as_str(),
                snapshot.media_type.as_str(),
            ) && stored.completeness == snapshot.completeness && stored.captured_at_ms
                == snapshot.captured_at_ms && same_bytes(
                stored.payload_sha256.as_slice(),
                snapshot.payload_sha256.as_slice(),
            ) {
                assert(stored@ == snapshot@);
                return true;
            }
            i += 1;
        }
        false
    }

    /// Whether a snapshot of the record has its contents under a digest.
    pub fn refers_to(&self, sha: &[u8]) -> (found: bool)
        ensures
            found == exists|i: int|
                0 <= i < self@.snapshots.len() && (#[trigger] self@.snapshots[i]).payload == sha@,
    {
        let mut i: usize = 0;
        while i < self.snapshots.len()
            invariant
                i <= self.snapshots@.len(),
                forall|j: int| 0 <= j < i ==> (#[trigger] self@.snapshots[j]).payload != sha@,
            decreases self.snapshots@.len() - i,
        {
            assert(self@.snapshots[i as int] == self.snapshots@[i as int]@);
            if same_bytes(self.snapshots[i].payload_sha256.as_slice(), sha) {
                return true;
            }
            i += 1;
        }
        false
    }

    /// Store a snapshot. One that is there already stays.
    ///
    /// # Errors
    ///
    /// Returns an error, and changes nothing, when a snapshot is there already with other contents
    /// or another completeness.
    pub fn store_snapshot(&mut self, snapshot: Snapshot) -> (result: Result<(), String>)
        requires
            old(self)@.well_formed(),
        ensures
            final(self)@.well_formed(),
            match old(self)@.with_snapshot(snapshot@) {
                Ok(after) => result is Ok && final(self)@ == after,
                Err(message) => result matches Err(error) && error@ == message && final(self)@
                    == old(self)@,
            },
    {
        match self.find_snapshot(snapshot.subject, snapshot.stage) {
            Some(place) => {
                let existing = &self.snapshots[place];
                assert(self@.snapshots[place as int] == existing@);
                if !same_bytes(
                    existing.payload_sha256.as_slice(),
                    snapshot.payload_sha256.as_slice(),
                ) || existing.completeness != snapshot.completeness {
                    let name = join4(
                        "snapshot ",
                        snapshot.subject.as_str(),
                        "/",
                        snapshot.stage.as_str(),
                    );
                    return Err(
                        join2(
                            name.as_str(),
                            " already exists with different content or completeness",
                        ),
                    );
                }
                Ok(())
            },
            None => {
                let ghost before = self.snapshots@;
                let ghost added = snapshot;
                self.snapshots.push(snapshot);
                proof {
                    assert(models(self.snapshots@) =~= models(before).push(added@));
                    lemma_stored_well_formed(old(self)@, added@);
                }
                Ok(())
            },
        }
    }

    /// Put a snapshot in the place of the one that is there, and give back the digest of what that
    /// one showed.
    ///
    /// # Errors
    ///
    /// Returns an error, and changes nothing, when there is none.
    pub fn replace_snapshot(&mut self, snapshot: Snapshot) -> (result: Result<Vec<u8>, String>)
        requires
            old(self)@.well_formed(),
        ensures
            final(self)@.well_formed(),
            if has_snapshot(old(self)@.snapshots, snapshot@.subject, snapshot@.stage) {
                &&& final(self)@ == old(self)@.with_replaced(snapshot@)
                &&& result matches Ok(sha) && sha@ == old(self)@.snapshots[snapshot_place(
                    old(self)@.snapshots,
                    snapshot@.subject,
                    snapshot@.stage,
                )].payload
            } else {
                result matches Err(error) && error@ == "could not find "@ + snapshot@.subject.text()
                    + "/"@ + snapshot@.stage.text()
                    + " snapshot: Query returned no rows"@ && final(self)@ == old(self)@
            },
    {
        match self.find_snapshot(snapshot.subject, snapshot.stage) {
            None => {
                let name = join4(
                    "could not find ",
                    snapshot.subject.as_str(),
                    "/",
                    snapshot.stage.as_str(),
                );
                Err(join2(name.as_str(), " snapshot: Query returned no rows"))
            },
            Some(place) => {
                assert(self@.snapshots[place as int] == self.snapshots@[place as int]@);
                let replaced = copy(self.snapshots[place].payload_sha256.as_slice());
                let ghost before = self.snapshots@;
                let changed = Snapshot {
                    completeness: self.snapshots[place].completeness,
                    ..snapshot
                };
                let ghost new = changed@;
                self.snapshots.set(place, changed);
                proof {
                    assert(models(self.snapshots@) =~= models(before).update(place as int, new));
                }
                Ok(replaced)
            },
        }
    }

    fn count_streams(&self) -> (count: u64)
        ensures
            count == stream_count(self@.snapshots),
    {
        let mut count: u64 = 0;
        let mut i: usize = 0;
        assert(self@.snapshots.take(0) =~= Seq::empty());
        while i < self.snapshots.len()
            invariant
                i <= self.snapshots@.len(),
                count <= i,
                count == stream_count(self@.snapshots.take(i as int)),
            decreases self.snapshots@.len() - i,
        {
            proof {
                let longer = self@.snapshots.take(i + 1);
                assert(longer.drop_last() =~= self@.snapshots.take(i as int));
                assert(longer.last() == self.snapshots@[i as int]@);
            }
            let subject = self.snapshots[i].subject;
            if subject == Subject::Stdout || subject == Subject::Stderr {
                count += 1;
            }
            i += 1;
        }
        assert(self@.snapshots.take(i as int) =~= self@.snapshots);
        count
    }

    /// Check that the call has the snapshots that a finished one needs.
    ///
    /// # Errors
    ///
    /// Returns an error when a call that ran lacks its result, or a shell call one of its streams.
    pub fn validate_completion(&self, require_pre_result: bool) -> (result: Result<(), String>)
        requires
            self@.well_formed(),
        ensures
            reports(result, self@.completion_fault(require_pre_result)),
    {
        if require_pre_result && self.call.requires_streams {
            let streams = self.count_streams();
            if streams != 4 {
                return Err(
                    join3(
                        "shell tool call is missing stream snapshots: found ",
                        decimal(streams).as_str(),
                        " of 4",
                    ),
                );
            }
        }
        if require_pre_result && !self.has(Subject::ToolResult, Stage::Before) {
            return Err("executed tool call is missing its pre-YARP result".to_owned());
        }
        Ok(())
    }

    /// Check the status of the call.
    ///
    /// # Errors
    ///
    /// Returns an error when the call has another status.
    pub fn require_status(&self, expected: &str) -> (result: Result<(), String>)
        ensures
            reports(result, self@.status_fault(expected@)),
    {
        if !same_text(self.status.as_str(), expected) {
            let shown = join4(
                "tool call ",
                self.call.source_call_id.as_str(),
                " has status ",
                self.status.as_str(),
            );
            return Err(join3(shown.as_str(), ", expected ", expected));
        }
        Ok(())
    }

    /// Check that the record belongs to a call that begins, perhaps for the second time.
    ///
    /// # Errors
    ///
    /// Returns an error when the record has no valid reference or was made of other metadata.
    pub fn check_identity(&self, call: &CallIdentity) -> (result: Result<(), String>)
        ensures
            reports(result, identity_fault(self@, call@)),
    {
        if let Err(error) = validate_archive_ref(self.archive_ref.as_str()) {
            return Err(error);
        }
        if !same_text(self.call.tool_name.as_str(), call.tool_name.as_str()) || !same_optional(
            &self.call.provider,
            &call.provider,
        ) || !same_optional(&self.call.model, &call.model) || !same_optional(
            &self.call.working_directory,
            &call.working_directory,
        ) || self.call.started_at_ms != call.started_at_ms || self.call.requires_streams
            != call.requires_streams {
            return Err(
                join3(
                    "tool call ",
                    call.source_call_id.as_str(),
                    " was already stored with different metadata",
                ),
            );
        }
        Ok(())
    }
}

/// What is wrong with a record that a call is about to use.
pub open spec fn identity_fault(record: CallModel, call: IdentityModel) -> Option<Seq<char>> {
    if !is_archive_ref(record.archive_ref) {
        Some("archive reference must be yr_ followed by 32 lowercase hexadecimal digits"@)
    } else if record.call != (IdentityModel {
        source_call_id: record.call.source_call_id,
        ..call
    }) {
        Some(
            "tool call "@ + call.source_call_id + " was already stored with different metadata"@,
        )
    } else {
        None
    }
}

/// The start of a session that is stored and given: the first that is known stays.
pub fn merged_start(stored: Option<i64>, given: Option<i64>) -> (start: Option<i64>)
    ensures
        start == if stored is Some {
            stored
        } else {
            given
        },
{
    match stored {
        Some(at) => Some(at),
        None => given,
    }
}

/// How an attempt to store a new call ended.
#[derive(Debug)]
pub enum InsertOutcome {
    /// Some rows were stored.
    Stored(u64),
    /// The reference, or the call, is stored already.
    Conflict,
    Failed(String),
}

/// What follows an attempt to store a new call.
#[derive(Debug)]
pub enum InsertStep {
    Done,
    /// Another reference is tried.
    Retry,
    Fail(String),
}

/// Decide what follows an attempt to store a new call: three references are tried.
pub fn insert_step(attempt: u8, outcome: InsertOutcome) -> (step: InsertStep)
    requires
        1 <= attempt <= 3,
    ensures
        match outcome {
            InsertOutcome::Stored(rows) => if rows == 1 {
                step is Done
            } else {
                step matches InsertStep::Fail(error) && error@ == "could not store tool call"@
            },
            InsertOutcome::Conflict => if attempt < 3 {
                step is Retry
            } else {
                step matches InsertStep::Fail(error) && error@
                    == "could not allocate a unique archive reference after three attempts"@
            },
            InsertOutcome::Failed(reason) => step matches InsertStep::Fail(error) && error@
                == "could not store tool call: "@ + reason@,
        },
{
    match outcome {
        InsertOutcome::Stored(rows) => if rows == 1 {
            InsertStep::Done
        } else {
            InsertStep::Fail("could not store tool call".to_owned())
        },
        InsertOutcome::Conflict => if attempt < 3 {
            InsertStep::Retry
        } else {
            InsertStep::Fail(
                "could not allocate a unique archive reference after three attempts".to_owned(),
            )
        },
        InsertOutcome::Failed(reason) => InsertStep::Fail(
            join2("could not store tool call: ", reason.as_str()),
        ),
    }
}

} // verus!
