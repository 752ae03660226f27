//! Identities, references and sources of archived calls.
use vstd::prelude::*;

use crate::text::{join2, same_text};

verus! {

/// The agent session that a call belongs to.
#[derive(Clone, Debug)]
pub struct SessionIdentity {
    pub agent: String,
    pub account: String,
    pub source_session_id: String,
    pub started_at_ms: Option<i64>,
}

/// One tool call of a session.
#[derive(Clone, Debug)]
pub struct CallIdentity {
    pub source_call_id: String,
    pub tool_name: String,
    pub provider: Option<String>,
    pub model: Option<String>,
    pub working_directory: Option<String>,
    pub started_at_ms: i64,
    pub requires_streams: bool,
}

/// The session and the call that an archived record is found by.
#[derive(Clone, Debug)]
pub struct ArchiveKey {
    pub session: SessionIdentity,
    pub source_call_id: String,
}

/// Whether an archived source holds all of the output.
#[derive(Clone, Copy, Debug, PartialEq, Eq, Structural)]
pub enum SourceCompleteness {
    Complete,
    Incomplete,
    Unknown,
}

impl SourceCompleteness {
    /// The stored name of the completeness.
    pub open spec fn text(self) -> Seq<char> {
        match self {
            SourceCompleteness::Complete => "complete"@,
            SourceCompleteness::Incomplete => "incomplete"@,
            SourceCompleteness::Unknown => "unknown"@,
        }
    }

    /// The stored name of the completeness.
    #[must_use]
    pub fn as_str(self) -> (name: &'static str)
        ensures
            name@ == self.text(),
    {
        match self {
            SourceCompleteness::Complete => "complete",
            SourceCompleteness::Incomplete => "incomplete",
            SourceCompleteness::Unknown => "unknown",
        }
    }
}

/// The completeness with a stored name.
pub open spec fn completeness_of(value: Seq<char>) -> Option<SourceCompleteness> {
    if value == "complete"@ {
        Some(SourceCompleteness::Complete)
    } else if value == "incomplete"@ {
        Some(SourceCompleteness::Incomplete)
    } else if value == "unknown"@ {
        Some(SourceCompleteness::Unknown)
    } else {
        None
    }
}

/// Read the stored name of a completeness.
///
/// # Errors
///
/// Returns an error when no completeness has that name.
pub fn parse_completeness(value: &str) -> (result: Result<SourceCompleteness, String>)
    ensures
        match completeness_of(value@) {
            Some(completeness) => result == Ok::<SourceCompleteness, String>(completeness),
            None => result matches Err(error) && error@ == "invalid source completeness "@ + value@,
        },
{
    if same_text(value, "complete") {
        Ok(SourceCompleteness::Complete)
    } else if same_text(value, "incomplete") {
        Ok(SourceCompleteness::Incomplete)
    } else if same_text(value, "unknown") {
        Ok(SourceCompleteness::Unknown)
    } else {
        Err(join2("invalid source completeness ", value))
    }
}

/// A stored completeness is read back.
pub proof fn lemma_completeness_round_trip(completeness: SourceCompleteness)
    ensures
        completeness_of(completeness.text()) == Some(completeness),
{
    reveal_strlit("complete");
    reveal_strlit("incomplete");
    reveal_strlit("unknown");
    assert("complete"@.len() == 8);
    assert("incomplete"@.len() == 10);
    assert("unknown"@.len() == 7);
}

/// An archived source of output.
#[derive(Clone, Copy, Debug, PartialEq, Eq, Structural)]
pub enum SourceName {
    Stdout,
    Stderr,
    SourceOutput,
    ResultText,
}

impl SourceName {
    /// The stored name of the source.
    pub open spec fn text(self) -> Seq<char> {
        match self {
            SourceName::Stdout => "stdout"@,
            SourceName::Stderr => "stderr"@,
            SourceName::SourceOutput => "source_output"@,
            SourceName::ResultText => "result_text"@,
        }
    }

    /// The stored name of the source.
    #[must_use]
    pub fn as_str(self) -> (name: &'static str)
        ensures
            name@ == self.text(),
    {
        match self {
            SourceName::Stdout => "stdout",
            SourceName::Stderr => "stderr",
            SourceName::SourceOutput => "source_output",
            SourceName::ResultText => "result_text",
        }
    }
}

/// The exact bytes of an archived source, after they were checked.
#[derive(Clone, Debug)]
pub struct VerifiedSource {
    pub name: SourceName,
    pub completeness: SourceCompleteness,
    pub media_type: String,
    pub body: Vec<u8>,
}

} // verus!
