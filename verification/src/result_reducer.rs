//! Reduction of results after a command has run.
use vstd::prelude::*;
use vstd::utf8::{decode_utf8, encode_utf8, valid_utf8};

use crate::archive::model::{SourceCompleteness, SourceName, VerifiedSource};
use crate::archive::reference::{has_reference_form, is_archive_ref};
use crate::bytes::{append, folded, has_infix_folded, lemma_folded_len, lit, occurs_at, same_bytes};
use crate::digest::{sha256, sha256_digest};
use crate::reducers::evidence::MarkerModel;
use crate::reducers::stream::{
    StreamModel, lemma_valid_rule_is_usable, rule_usable, stream_fault,
};
use crate::reducers::{RecoveryMarker, StreamReducer};
use crate::rewrite::result_plan::{
    ResultModel, has_setup_diagnostic, lemma_plan_keeps_reducer, result_plan,
};
use crate::rewrite::{
    ResultPlan, StatusConfidence, contains_setup_diagnostic, select_result_plan,
};
use crate::rule_pack::model::Rule;
use crate::rule_pack::validation::{each_rule_fault, rule_fault, rules_fault};
use crate::rules::registry::{BuiltinPack, Registry};
use crate::text::{decimal, decode, digits, join3, reports, same_text};

verus! {

/// The version of the result protocol.
pub const RESULT_PROTOCOL_VERSION: u32 = 1;

/// How many bytes of one chunk are kept for the next one.
pub const SETUP_DIAGNOSTIC_OVERLAP_BYTES: usize = 31;

/// Looks for the diagnostics of setup commands in output that comes in chunks.
#[derive(Debug)]
pub struct SetupDiagnosticScanner {
    pub tail: Vec<u8>,
    pub matched: bool,
}

/// The last bytes of some output.
pub open spec fn last_bytes(value: Seq<u8>) -> Seq<u8> {
    if value.len() <= SETUP_DIAGNOSTIC_OVERLAP_BYTES {
        value
    } else {
        value.skip(value.len() - SETUP_DIAGNOSTIC_OVERLAP_BYTES)
    }
}

impl SetupDiagnosticScanner {
    /// The scanner has read `history`: it has matched if that holds a diagnostic, and otherwise
    /// keeps its last bytes.
    pub open spec fn has_read(&self, history: Seq<u8>) -> bool {
        &&& self.matched == has_setup_diagnostic(history)
        &&& !self.matched ==> self.tail@ == last_bytes(history)
    }
}

proof fn lemma_infix_of_part(whole: Seq<u8>, from: int, to: int, needle: Seq<u8>)
    requires
        0 <= from <= to <= whole.len(),
        has_infix_folded(whole.subrange(from, to), needle),
    ensures
        has_infix_folded(whole, needle),
{
    let part = whole.subrange(from, to);
    let at = choose|at: int| #[trigger] occurs_at(folded(part), folded(needle), at);
    lemma_folded_len(part);
    lemma_folded_len(whole);
    lemma_folded_len(needle);
    assert(folded(whole).subrange(from + at, from + at + needle.len()) =~= folded(part).subrange(
        at,
        at + needle.len(),
    ));
    assert(occurs_at(folded(whole), folded(needle), from + at));
}

/// A short needle in the concatenation of two parts is in one of them or across their boundary.
proof fn lemma_infix_of_concatenation(history: Seq<u8>, chunk: Seq<u8>, needle: Seq<u8>)
    requires
        has_infix_folded(history + chunk, needle),
        needle.len() <= SETUP_DIAGNOSTIC_OVERLAP_BYTES,
    ensures
        has_infix_folded(history, needle) || has_infix_folded(chunk, needle) || has_infix_folded(
            boundary(history, chunk),
            needle,
        ),
{
    let whole = history + chunk;
    let at = choose|at: int| #[trigger] occurs_at(folded(whole), folded(needle), at);
    let split = history.len() as int;
    let length = needle.len() as int;
    let tail = last_bytes(history);
    let kept = if chunk.len() <= SETUP_DIAGNOSTIC_OVERLAP_BYTES {
        chunk.len() as int
    } else {
        SETUP_DIAGNOSTIC_OVERLAP_BYTES as int
    };
    lemma_folded_len(whole);
    lemma_folded_len(needle);
    lemma_folded_len(history);
    lemma_folded_len(chunk);
    lemma_folded_len(boundary(history, chunk));
    if at + length <= split {
        assert(folded(history).subrange(at, at + length) =~= folded(whole).subrange(
            at,
            at + length,
        ));
        assert(occurs_at(folded(history), folded(needle), at));
    } else if at >= split {
        assert(folded(chunk).subrange(at - split, at - split + length) =~= folded(whole).subrange(
            at,
            at + length,
        ));
        assert(occurs_at(folded(chunk), folded(needle), at - split));
    } else {
        let start = split - tail.len();
        let seam = boundary(history, chunk);
        assert(seam =~= whole.subrange(start, split + kept));
        assert(folded(seam).subrange(at - start, at - start + length) =~= folded(whole).subrange(
            at,
            at + length,
        ));
        assert(occurs_at(folded(seam), folded(needle), at - start));
    }
}

/// What is looked at around the boundary in front of a chunk.
pub open spec fn boundary(history: Seq<u8>, chunk: Seq<u8>) -> Seq<u8> {
    last_bytes(history) + if chunk.len() <= SETUP_DIAGNOSTIC_OVERLAP_BYTES {
        chunk
    } else {
        chunk.take(SETUP_DIAGNOSTIC_OVERLAP_BYTES as int)
    }
}

proof fn lemma_short_needles()
    ensures
        lit("cd:").len() <= 31,
        lit("umask:").len() <= 31,
        lit("export:").len() <= 31,
        lit("readonly variable").len() <= 31,
        lit("not a valid identifier").len() <= 31,
{
    reveal_strlit("cd:");
    reveal_strlit("umask:");
    reveal_strlit("export:");
    reveal_strlit("readonly variable");
    reveal_strlit("not a valid identifier");
    vstd::utf8::is_ascii_chars_encode_utf8("cd:"@);
    vstd::utf8::is_ascii_chars_encode_utf8("umask:"@);
    vstd::utf8::is_ascii_chars_encode_utf8("export:"@);
    vstd::utf8::is_ascii_chars_encode_utf8("readonly variable"@);
    vstd::utf8::is_ascii_chars_encode_utf8("not a valid identifier"@);
}

/// Output holds a diagnostic if and only if its parts or their boundary do.
proof fn lemma_scan(history: Seq<u8>, chunk: Seq<u8>)
    ensures
        has_setup_diagnostic(history + chunk) == (has_setup_diagnostic(history)
            || has_setup_diagnostic(chunk) || has_setup_diagnostic(boundary(history, chunk))),
{
    let patterns = seq!["cd:", "umask:", "export:", "readonly variable", "not a valid identifier"];
    let whole = history + chunk;
    let tail = last_bytes(history);
    let kept = if chunk.len() <= SETUP_DIAGNOSTIC_OVERLAP_BYTES {
        chunk.len() as int
    } else {
        SETUP_DIAGNOSTIC_OVERLAP_BYTES as int
    };
    lemma_short_needles();
    assert(whole.subrange(0, history.len() as int) =~= history);
    assert(whole.subrange(history.len() as int, whole.len() as int) =~= chunk);
    assert(whole.subrange(history.len() - tail.len(), history.len() + kept) =~= boundary(
        history,
        chunk,
    ));
    assert forall|i: int| 0 <= i < 5 implies has_infix_folded(whole, lit(#[trigger] patterns[i]))
        == (has_infix_folded(history, lit(patterns[i])) || has_infix_folded(
        chunk,
        lit(patterns[i]),
    ) || has_infix_folded(boundary(history, chunk), lit(patterns[i]))) by {
        let needle = lit(patterns[i]);
        assert(needle.len() <= 31);
        if has_infix_folded(whole, needle) {
            lemma_infix_of_concatenation(history, chunk, needle);
        }
        if has_infix_folded(history, needle) {
            lemma_infix_of_part(whole, 0, history.len() as int, needle);
        }
        if has_infix_folded(chunk, needle) {
            lemma_infix_of_part(whole, history.len() as int, whole.len() as int, needle);
        }
        if has_infix_folded(boundary(history, chunk), needle) {
            lemma_infix_of_part(
                whole,
                history.len() - tail.len(),
                history.len() + kept,
                needle,
            );
        }
    }
    if has_setup_diagnostic(whole) {
        let i = choose|i: int| 0 <= i < 5 && has_infix_folded(whole, lit(#[trigger] patterns[i]));
        assert(has_infix_folded(whole, lit(patterns[i])));
    }
    if has_setup_diagnostic(history) {
        let i = choose|i: int| 0 <= i < 5 && has_infix_folded(history, lit(#[trigger] patterns[i]));
        assert(has_infix_folded(history, lit(patterns[i])));
    }
    if has_setup_diagnostic(chunk) {
        let i = choose|i: int| 0 <= i < 5 && has_infix_folded(chunk, lit(#[trigger] patterns[i]));
        assert(has_infix_folded(chunk, lit(patterns[i])));
    }
    if has_setup_diagnostic(boundary(history, chunk)) {
        let i = choose|i: int|
            0 <= i < 5 && has_infix_folded(
                boundary(history, chunk),
                lit(#[trigger] patterns[i]),
            );
        assert(has_infix_folded(boundary(history, chunk), lit(patterns[i])));
    }
}

impl Default for SetupDiagnosticScanner {
    fn default() -> (scanner: Self)
        ensures
            !scanner.matched,
            scanner.tail@.len() == 0,
    {
        SetupDiagnosticScanner { tail: Vec::new(), matched: false }
    }
}

impl SetupDiagnosticScanner {
    /// Read one more chunk.
    pub fn push(&mut self, chunk: &[u8])
        ensures
            forall|history: Seq<u8>| #[trigger]
                old(self).has_read(history) ==> final(self).has_read(history + chunk@),
    {
        proof {
            assert forall|history: Seq<u8>| #[trigger] self.has_read(history) implies
                has_setup_diagnostic(history + chunk@) == (has_setup_diagnostic(history)
                || has_setup_diagnostic(chunk@) || has_setup_diagnostic(
                boundary(history, chunk@),
            )) by {
                lemma_scan(history, chunk@);
            }
        }
        if self.matched {
            return;
        }
        let ghost tail = self.tail@;
        let kept: usize = if chunk.len() < SETUP_DIAGNOSTIC_OVERLAP_BYTES {
            chunk.len()
        } else {
            SETUP_DIAGNOSTIC_OVERLAP_BYTES
        };
        let mut seam: Vec<u8> = crate::bytes::copy(self.tail.as_slice());
        append(&mut seam, &chunk[0..kept]);
        proof {
            assert forall|history: Seq<u8>| #[trigger] old(self).has_read(history) implies seam@
                == boundary(history, chunk@) by {
                assert(chunk@.subrange(0, chunk@.len() as int) =~= chunk@);
                assert(seam@ =~= boundary(history, chunk@));
            }
        }
        self.matched = contains_setup_diagnostic(seam.as_slice()) || contains_setup_diagnostic(
            chunk,
        );
        append(&mut self.tail, chunk);
        let ghost joined = self.tail@;
        if self.tail.len() > SETUP_DIAGNOSTIC_OVERLAP_BYTES {
            let start: usize = self.tail.len() - SETUP_DIAGNOSTIC_OVERLAP_BYTES;
            let rest: Vec<u8> = crate::bytes::copy(
                &self.tail.as_slice()[start..self.tail.len()],
            );
            self.tail = rest;
        }
        proof {
            assert(self.tail@ =~= last_bytes(joined));
            assert forall|history: Seq<u8>| #[trigger] old(self).has_read(
                history,
            ) implies self.has_read(history + chunk@) by {
                assert(tail == last_bytes(history));
                assert(last_bytes(joined) =~= last_bytes(history + chunk@));
            }
        }
    }
}

/// A request to reduce the result of a command.
#[derive(Debug)]
pub struct ReduceRequest {
    pub schema_version: u32,
    pub command: String,
    pub text: String,
    pub is_error: bool,
    pub exit_code: Option<i32>,
    pub archive_ref: String,
    pub source_completeness: SourceCompleteness,
    pub prefer_archive_source: bool,
}

/// What becomes of a result.
#[derive(Debug)]
pub struct ReduceResponse {
    pub changed: bool,
    pub content: Option<String>,
    pub source: Option<SourceName>,
    pub source_completeness: Option<SourceCompleteness>,
    pub needs_result_text: bool,
}

/// The contents of a [`ReduceResponse`].
#[verifier::ext_equal]
pub struct ResponseModel {
    pub changed: bool,
    pub content: Option<Seq<char>>,
    pub source: Option<SourceName>,
    pub source_completeness: Option<SourceCompleteness>,
    pub needs_result_text: bool,
}

impl View for ReduceResponse {
    type V = ResponseModel;

    open spec fn view(&self) -> ResponseModel {
        ResponseModel {
            changed: self.changed,
            content: match self.content {
                Some(text) => Some(text@),
                None => None,
            },
            source: self.source,
            source_completeness: self.source_completeness,
            needs_result_text: self.needs_result_text,
        }
    }
}

/// The result stays as it is.
pub open spec fn unchanged_response() -> ResponseModel {
    ResponseModel {
        changed: false,
        content: None,
        source: None,
        source_completeness: None,
        needs_result_text: false,
    }
}

/// The result is replaced.
pub open spec fn changed_response(
    content: Seq<char>,
    source: SourceName,
    completeness: SourceCompleteness,
    needs_result_text: bool,
) -> ResponseModel {
    ResponseModel {
        changed: true,
        content: Some(content),
        source: Some(source),
        source_completeness: Some(completeness),
        needs_result_text,
    }
}

/// What is wrong with a request.
pub open spec fn request_fault(request: ReduceRequest) -> Option<Seq<char>> {
    if request.schema_version != RESULT_PROTOCOL_VERSION {
        Some(
            "unsupported result-reducer schema version "@ + digits(request.schema_version as nat)
                + "; expected 1"@,
        )
    } else if !is_archive_ref(request.archive_ref@) {
        Some("invalid result-reducer archive reference"@)
    } else {
        None
    }
}

/// The command reported a success: by its exit code where that is known.
pub open spec fn reported_success(request: ReduceRequest) -> bool {
    match request.exit_code {
        Some(code) => code == 0,
        None => !request.is_error,
    }
}

/// The summary of a result.
pub open spec fn summary(
    request: ReduceRequest,
    plan: ResultModel,
    input: Seq<u8>,
    source: SourceName,
    completeness: SourceCompleteness,
) -> Seq<u8> {
    StreamModel::of_rule(plan.rule, plan.diagnostics).fed(input).result(
        reported_success(request) && plan.confidence == StatusConfidence::Complete,
        Some(
            MarkerModel {
                archive_ref: request.archive_ref@,
                source: source.text(),
                completeness: completeness.text(),
            },
        ),
    )
}

/// A summary as the content of a response.
pub open spec fn content_response(
    content: Seq<u8>,
    source: SourceName,
    completeness: SourceCompleteness,
    needs_result_text: bool,
    fault: Seq<char>,
) -> Result<ResponseModel, Seq<char>> {
    if valid_utf8(content) {
        Ok(changed_response(decode_utf8(content), source, completeness, needs_result_text))
    } else {
        Err(fault)
    }
}

/// What becomes of a result whose complete output is archived.
pub open spec fn archived_response(
    request: ReduceRequest,
    plan: ResultModel,
    source: VerifiedSource,
) -> Result<ResponseModel, Seq<char>> {
    let body = source.body@;
    let content = summary(
        request,
        plan,
        body,
        SourceName::SourceOutput,
        SourceCompleteness::Complete,
    );
    if source.media_type@ != "text/plain; charset=utf-8"@ {
        Ok(unchanged_response())
    } else {
        match stream_fault(plan.rule) {
            Some(fault) => Err(fault),
            None => if plan.setup && has_setup_diagnostic(body) {
                Ok(unchanged_response())
            } else if content.len() == body.len() && sha256(content) == sha256(body) {
                Ok(unchanged_response())
            } else {
                content_response(
                    content,
                    SourceName::SourceOutput,
                    SourceCompleteness::Complete,
                    false,
                    "source_output summary was not valid UTF-8"@,
                )
            },
        }
    }
}

/// What becomes of a result whose text is at hand.
pub open spec fn text_response(request: ReduceRequest, plan: ResultModel) -> Result<
    ResponseModel,
    Seq<char>,
> {
    let body = encode_utf8(request.text@);
    let content = summary(
        request,
        plan,
        body,
        SourceName::ResultText,
        request.source_completeness,
    );
    if plan.setup && has_setup_diagnostic(body) {
        Ok(unchanged_response())
    } else {
        match stream_fault(plan.rule) {
            Some(fault) => Err(fault),
            None => if content == body {
                Ok(unchanged_response())
            } else {
                content_response(
                    content,
                    SourceName::ResultText,
                    request.source_completeness,
                    true,
                    "result text summary was not valid UTF-8"@,
                )
            },
        }
    }
}

/// The first archived source from `from` on that holds the output of the command.
pub open spec fn output_source(sources: Seq<VerifiedSource>, from: int) -> Option<int>
    decreases sources.len() - from,
{
    if from < 0 || from >= sources.len() {
        None
    } else if sources[from].name == SourceName::SourceOutput {
        Some(from)
    } else {
        output_source(sources, from + 1)
    }
}

/// What becomes of a result.
pub open spec fn response(
    request: ReduceRequest,
    plan: Result<ResultModel, Seq<char>>,
    sources: Result<Vec<VerifiedSource>, String>,
) -> Result<ResponseModel, Seq<char>> {
    match plan {
        Err(_) => Ok(unchanged_response()),
        Ok(selected) => if !request.prefer_archive_source {
            text_response(request, selected)
        } else {
            match sources {
                Err(error) => Err(error@),
                Ok(list) => match output_source(list@, 0) {
                    None => Err("documented complete source_output is unavailable"@),
                    Some(index) => archived_response(request, selected, list@[index]),
                },
            }
        },
    }
}

/// What the stream of a plan gives for some output.
pub open spec fn rendered(
    plan: ResultModel,
    input: Seq<u8>,
    success: bool,
    archive_ref: Seq<char>,
    source: Seq<char>,
    completeness: Seq<char>,
) -> Seq<u8> {
    StreamModel::of_rule(plan.rule, plan.diagnostics).fed(input).result(
        success,
        Some(MarkerModel { archive_ref, source, completeness }),
    )
}

/// A request is answered where it is of this version and names an archived call.
pub proof fn lemma_answered_requests(request: ReduceRequest)
    ensures
        request_fault(request) is None <==> request.schema_version == 1 && is_archive_ref(
            request.archive_ref@,
        ),
{
}

/// The exit code decides how a result is rendered: a command that ended with zero is a success, and
/// any other code is a failure, whatever else the request says. Without a code, the error flag
/// decides. Where the status of the command is in doubt, it is no success. The output that is
/// rendered is the text of the request, under the reference of the request.
pub proof fn lemma_exit_status_decides(
    request: ReduceRequest,
    plan: ResultModel,
    sources: Result<Vec<VerifiedSource>, String>,
)
    requires
        !request.prefer_archive_source,
    ensures
        response(request, Ok(plan), sources) matches Ok(answer) ==> (answer.content matches Some(
            content,
        ) ==> {
            let body = encode_utf8(request.text@);
            let completeness = match request.source_completeness {
                SourceCompleteness::Complete => "complete"@,
                SourceCompleteness::Incomplete => "incomplete"@,
                SourceCompleteness::Unknown => "unknown"@,
            };
            let success = rendered(
                plan,
                body,
                true,
                request.archive_ref@,
                "result_text"@,
                completeness,
            );
            let failure = rendered(
                plan,
                body,
                false,
                request.archive_ref@,
                "result_text"@,
                completeness,
            );
            let known = plan.confidence == StatusConfidence::Complete;
            &&& known && request.exit_code == Some(0i32) ==> encode_utf8(content) == success
            &&& request.exit_code is Some && request.exit_code != Some(0i32) ==> encode_utf8(
                content,
            ) == failure
            &&& known && request.exit_code is None && !request.is_error ==> encode_utf8(content)
                == success
            &&& request.exit_code is None && request.is_error ==> encode_utf8(content) == failure
            &&& !known ==> encode_utf8(content) == failure
        }),
{
    if let Ok(answer) = response(request, Ok(plan), sources) {
        if let Some(content) = answer.content {
            let body = encode_utf8(request.text@);
            let bytes = summary(
                request,
                plan,
                body,
                SourceName::ResultText,
                request.source_completeness,
            );
            assert(valid_utf8(bytes));
            vstd::utf8::decode_utf8_encode_utf8(bytes);
        }
    }
}

proof fn lemma_first_output(sources: Seq<VerifiedSource>, from: int, at: int)
    requires
        0 <= from <= at < sources.len(),
        sources[at].name == SourceName::SourceOutput,
        forall|i: int| from <= i < at ==> (#[trigger] sources[i]).name != SourceName::SourceOutput,
    ensures
        output_source(sources, from) == Some(at),
    decreases at - from,
{
    if from < at {
        assert(sources[from].name != SourceName::SourceOutput);
        lemma_first_output(sources, from + 1, at);
    }
}

/// The exit code decides in the same way how archived output is rendered. What is rendered is the
/// body of the first source that holds the whole output of the command.
pub proof fn lemma_exit_status_decides_for_archived_output(
    request: ReduceRequest,
    plan: ResultModel,
    sources: Vec<VerifiedSource>,
    at: int,
)
    requires
        request.prefer_archive_source,
        0 <= at < sources@.len(),
        sources@[at].name == SourceName::SourceOutput,
        forall|i: int| 0 <= i < at ==> (#[trigger] sources@[i]).name != SourceName::SourceOutput,
    ensures
        response(request, Ok(plan), Ok(sources)) matches Ok(answer) ==> (answer.content matches Some(
            content,
        ) ==> {
            let body = sources@[at].body@;
            let success = rendered(
                plan,
                body,
                true,
                request.archive_ref@,
                "source_output"@,
                "complete"@,
            );
            let failure = rendered(
                plan,
                body,
                false,
                request.archive_ref@,
                "source_output"@,
                "complete"@,
            );
            let known = plan.confidence == StatusConfidence::Complete;
            &&& known && request.exit_code == Some(0i32) ==> encode_utf8(content) == success
            &&& request.exit_code is Some && request.exit_code != Some(0i32) ==> encode_utf8(
                content,
            ) == failure
            &&& known && request.exit_code is None && !request.is_error ==> encode_utf8(content)
                == success
            &&& request.exit_code is None && request.is_error ==> encode_utf8(content) == failure
            &&& !known ==> encode_utf8(content) == failure
            &&& sources@[at].media_type@ == "text/plain; charset=utf-8"@
        }),
{
    lemma_first_output(sources@, 0, at);
    if let Ok(answer) = response(request, Ok(plan), Ok(sources)) {
        if let Some(content) = answer.content {
            let bytes = summary(
                request,
                plan,
                sources@[at].body@,
                SourceName::SourceOutput,
                SourceCompleteness::Complete,
            );
            assert(valid_utf8(bytes));
            vstd::utf8::decode_utf8_encode_utf8(bytes);
        }
    }
}

/// A result is left as it is only where there is no plan for the command, where a setup command
/// complained, where its rendering is the output itself or has the digest of it, or where the
/// archived output is no text.
pub proof fn lemma_result_is_left_alone_for_a_reason(
    request: ReduceRequest,
    plan: ResultModel,
    sources: Result<Vec<VerifiedSource>, String>,
    success: bool,
)
    requires
        response(request, Ok(plan), sources) matches Ok(answer) && !answer.changed,
        plan.confidence == StatusConfidence::Complete,
        request.exit_code matches Some(code) ==> success == (code == 0),
        request.exit_code is None ==> success == !request.is_error,
    ensures
        request.prefer_archive_source ==> sources is Ok && exists|i: int| {
            &&& 0 <= i < sources->Ok_0@.len()
            &&& (#[trigger] sources->Ok_0@[i]).name == SourceName::SourceOutput
            &&& {
                let body = sources->Ok_0@[i].body@;
                let bytes = rendered(
                    plan,
                    body,
                    success,
                    request.archive_ref@,
                    "source_output"@,
                    "complete"@,
                );
                ||| sources->Ok_0@[i].media_type@ != "text/plain; charset=utf-8"@
                ||| plan.setup && has_setup_diagnostic(body)
                ||| sha256(bytes) == sha256(body)
            }
        },
        !request.prefer_archive_source ==> {
            let body = encode_utf8(request.text@);
            ||| plan.setup && has_setup_diagnostic(body)
            ||| rendered(
                plan,
                body,
                success,
                request.archive_ref@,
                "result_text"@,
                request.source_completeness.text(),
            ) == body
        },
{
    if request.prefer_archive_source {
        let list = sources->Ok_0@;
        lemma_found_output(list, 0);
        let index = output_source(list, 0)->0;
        assert(list[index].name == SourceName::SourceOutput);
    }
}

proof fn lemma_found_output(sources: Seq<VerifiedSource>, from: int)
    requires
        0 <= from,
    ensures
        output_source(sources, from) matches Some(index) ==> from <= index < sources.len()
            && sources[index].name == SourceName::SourceOutput,
    decreases sources.len() - from,
{
    if from < sources.len() {
        lemma_found_output(sources, from + 1);
    }
}

/// A response that changes the result says where its content comes from. It holds the whole of it,
/// and the result text need be kept only where the content was made of it.
pub proof fn lemma_changed_response_names_its_source(
    request: ReduceRequest,
    plan: Result<ResultModel, Seq<char>>,
    sources: Result<Vec<VerifiedSource>, String>,
)
    ensures
        response(request, plan, sources) matches Ok(answer) ==> {
            &&& answer.changed == (answer.content is Some)
            &&& plan is Err ==> !answer.changed
            &&& answer.changed && request.prefer_archive_source ==> answer.source == Some(
                SourceName::SourceOutput,
            ) && answer.source_completeness == Some(SourceCompleteness::Complete)
                && !answer.needs_result_text
            &&& answer.changed && !request.prefer_archive_source ==> answer.source == Some(
                SourceName::ResultText,
            ) && answer.source_completeness == Some(request.source_completeness)
                && answer.needs_result_text
            &&& !answer.changed ==> answer.source is None && answer.source_completeness is None
                && !answer.needs_result_text
        },
{
}

/// Check the version and the archive reference of a request.
///
/// # Errors
///
/// Returns an error when the version is not the one of this protocol or the reference is malformed.
pub fn check_request(request: &ReduceRequest) -> (result: Result<(), String>)
    ensures
        reports(result, request_fault(*request)),
{
    if request.schema_version != RESULT_PROTOCOL_VERSION {
        return Err(
            join3(
                "unsupported result-reducer schema version ",
                decimal(request.schema_version as u64).as_str(),
                "; expected 1",
            ),
        );
    }
    if !has_reference_form(request.archive_ref.as_str()) {
        return Err("invalid result-reducer archive reference".to_owned());
    }
    Ok(())
}

fn unchanged() -> (response: ReduceResponse)
    ensures
        response@ == unchanged_response(),
{
    ReduceResponse {
        changed: false,
        content: None,
        source: None,
        source_completeness: None,
        needs_result_text: false,
    }
}

fn summarize(
    request: &ReduceRequest,
    plan: &ResultPlan,
    input: &[u8],
    source: SourceName,
    completeness: SourceCompleteness,
) -> (result: Result<Vec<u8>, String>)
    requires
        rule_usable(plan.rule@),
    ensures
        match stream_fault(plan.rule@) {
            Some(fault) => result matches Err(error) && error@ == fault,
            None => result matches Ok(content) && content@ == summary(
                *request,
                plan@,
                input@,
                source,
                completeness,
            ),
        },
{
    let succeeded = match request.exit_code {
        Some(code) => code == 0,
        None => !request.is_error,
    };
    let success = succeeded && plan.status_confidence == StatusConfidence::Complete;
    let mut reducer = StreamReducer::new_with_transform_diagnostics(
        &plan.rule,
        plan.transform_diagnostics,
    )?;
    reducer.push(input);
    let marker = RecoveryMarker {
        archive_ref: request.archive_ref.as_str(),
        source: source.as_str(),
        completeness: completeness.as_str(),
    };
    Ok(reducer.finish(success, Some(marker)))
}

fn respond(
    content: Vec<u8>,
    source: SourceName,
    completeness: SourceCompleteness,
    needs_result_text: bool,
    fault: &str,
) -> (result: Result<ReduceResponse, String>)
    ensures
        match content_response(content@, source, completeness, needs_result_text, fault@) {
            Ok(model) => result matches Ok(response) && response@ == model,
            Err(reason) => result matches Err(error) && error@ == reason,
        },
{
    match decode(content.as_slice()) {
        Some(text) => {
            proof {
                vstd::utf8::encode_utf8_decode_utf8(text@);
            }
            Ok(
                ReduceResponse {
                    changed: true,
                    content: Some(text),
                    source: Some(source),
                    source_completeness: Some(completeness),
                    needs_result_text,
                },
            )
        },
        None => Err(fault.to_owned()),
    }
}

fn reduce_archived(request: &ReduceRequest, plan: &ResultPlan, source: &VerifiedSource) -> (result:
    Result<ReduceResponse, String>)
    requires
        rule_usable(plan.rule@),
    ensures
        match archived_response(*request, plan@, *source) {
            Ok(model) => result matches Ok(response) && response@ == model,
            Err(fault) => result matches Err(error) && error@ == fault,
        },
{
    if !same_text(source.media_type.as_str(), "text/plain; charset=utf-8") {
        return Ok(unchanged());
    }
    let body: &[u8] = source.body.as_slice();
    let content = summarize(
        request,
        plan,
        body,
        SourceName::SourceOutput,
        SourceCompleteness::Complete,
    )?;
    if plan.fail_open_setup_diagnostics && contains_setup_diagnostic(body) {
        return Ok(unchanged());
    }
    if content.len() == body.len() && same_bytes(
        sha256_digest(content.as_slice()).as_slice(),
        sha256_digest(body).as_slice(),
    ) {
        return Ok(unchanged());
    }
    respond(
        content,
        SourceName::SourceOutput,
        SourceCompleteness::Complete,
        false,
        "source_output summary was not valid UTF-8",
    )
}

fn reduce_text(request: &ReduceRequest, plan: &ResultPlan) -> (result: Result<
    ReduceResponse,
    String,
>)
    requires
        rule_usable(plan.rule@),
    ensures
        match text_response(*request, plan@) {
            Ok(model) => result matches Ok(response) && response@ == model,
            Err(fault) => result matches Err(error) && error@ == fault,
        },
{
    let body: &[u8] = request.text.as_str().as_bytes();
    if plan.fail_open_setup_diagnostics && contains_setup_diagnostic(body) {
        return Ok(unchanged());
    }
    let content = summarize(
        request,
        plan,
        body,
        SourceName::ResultText,
        request.source_completeness,
    )?;
    if same_bytes(content.as_slice(), body) {
        return Ok(unchanged());
    }
    respond(
        content,
        SourceName::ResultText,
        request.source_completeness,
        true,
        "result text summary was not valid UTF-8",
    )
}

/// The contents of a plan.
pub open spec fn plan_model(plan: Result<ResultPlan, String>) -> Result<ResultModel, Seq<char>> {
    match plan {
        Ok(selected) => Ok(selected@),
        Err(error) => Err(error@),
    }
}

/// Reduce the result of a command whose plan is known.
///
/// # Errors
///
/// Returns an error when a requested archived source is unavailable, when the rule of the plan
/// cannot be used, or when a summary is not UTF-8. A command without a plan stays unchanged.
pub fn reduce_planned(
    request: &ReduceRequest,
    plan: &Result<ResultPlan, String>,
    sources: &Result<Vec<VerifiedSource>, String>,
) -> (result: Result<ReduceResponse, String>)
    requires
        plan matches Ok(selected) ==> rule_usable(selected.rule@),
    ensures
        match response(*request, plan_model(*plan), *sources) {
            Ok(model) => result matches Ok(reduced) && reduced@ == model,
            Err(fault) => result matches Err(error) && error@ == fault,
        },
{
    let selected = match plan {
        Ok(selected) => selected,
        Err(_) => {
            return Ok(unchanged());
        },
    };
    if !request.prefer_archive_source {
        return reduce_text(request, selected);
    }
    let list = match sources {
        Ok(list) => list,
        Err(error) => {
            return Err(error.clone());
        },
    };
    let mut i: usize = 0;
    while i < list.len()
        invariant
            i <= list.len(),
            rule_usable(selected.rule@),
            output_source(list@, 0) == output_source(list@, i as int),
            response(*request, plan_model(*plan), *sources) == match output_source(list@, 0) {
                None => Err("documented complete source_output is unavailable"@),
                Some(index) => archived_response(*request, selected@, list@[index]),
            },
        decreases list.len() - i,
    {
        if list[i].name == SourceName::SourceOutput {
            return reduce_archived(request, selected, &list[i]);
        }
        i += 1;
    }
    Err("documented complete source_output is unavailable".to_owned())
}

/// Every built-in rule can be used to reduce a stream.
pub open spec fn pack_usable(builtin: BuiltinPack) -> bool {
    forall|i: int| 0 <= i < builtin.rules@.len() ==> rule_usable(
        (#[trigger] builtin.rules@[i])@,
    )
}

proof fn lemma_each_rule_valid(rules: Seq<Rule>, count: nat)
    requires
        count <= rules.len(),
        each_rule_fault(rules, count) is None,
    ensures
        forall|i: int| 0 <= i < count ==> rule_fault(#[trigger] rules[i]) is None,
    decreases count,
{
    if count > 0 {
        lemma_each_rule_valid(rules, (count - 1) as nat);
    }
}

/// The rules of a valid pack can be used to reduce streams.
pub proof fn lemma_valid_pack_is_usable(builtin: BuiltinPack)
    requires
        rules_fault(builtin.rules@) is None,
    ensures
        pack_usable(builtin),
{
    lemma_each_rule_valid(builtin.rules@, builtin.rules@.len());
    assert forall|i: int| 0 <= i < builtin.rules@.len() implies rule_usable(
        (#[trigger] builtin.rules@[i])@,
    ) by {
        lemma_valid_rule_is_usable(builtin.rules@[i]);
    }
}

/// The answer to a request.
pub open spec fn is_response(
    result: Result<ReduceResponse, String>,
    request: ReduceRequest,
    plan: Result<ResultModel, Seq<char>>,
    sources: Result<Vec<VerifiedSource>, String>,
) -> bool {
    match response(request, plan, sources) {
        Ok(model) => result matches Ok(reduced) && reduced@ == model,
        Err(fault) => result matches Err(error) && error@ == fault,
    }
}

/// Reduce the result of a command, given the archived sources of the call.
///
/// # Errors
///
/// Returns an error when a requested archived source is unavailable, when the rule of the plan
/// cannot be used, or when a summary is not UTF-8. A command without a plan stays unchanged.
pub fn reduce(
    request: &ReduceRequest,
    builtins: &Registry,
    sources: &Result<Vec<VerifiedSource>, String>,
) -> (result: Result<ReduceResponse, String>)
    requires
        request.command@.len() < usize::MAX - 4,
        builtins.well_formed(),
        builtins.external@.len() == 0,
        pack_usable(builtins.builtin),
    ensures
        is_response(
            result,
            *request,
            result_plan(builtins.builtin, request.command@),
            *sources,
        ),
{
    let plan = select_result_plan(request.command.as_str(), builtins);
    proof {
        lemma_plan_keeps_reducer(builtins.builtin, request.command@);
        assert(plan_model(plan) == result_plan(builtins.builtin, request.command@));
        if plan is Ok {
            let i = choose|i: int|
                0 <= i < builtins.builtin.rules@.len() && (#[trigger] builtins.builtin.rules@[i])@.reducer
                    == plan->Ok_0.rule@.reducer;
            assert(rule_usable(builtins.builtin.rules@[i]@));
        }
    }
    reduce_planned(request, &plan, sources)
}

/// Answer one request: it is checked, and the result that it holds is reduced.
///
/// # Errors
///
/// Returns an error when the request could not be read or is malformed, or when the result cannot be
/// reduced.
pub fn run(
    request: &Result<ReduceRequest, String>,
    builtins: &Registry,
    sources: &Result<Vec<VerifiedSource>, String>,
) -> (result: Result<ReduceResponse, String>)
    requires
        request matches Ok(given) ==> given.command@.len() < usize::MAX - 4,
        builtins.well_formed(),
        builtins.external@.len() == 0,
        pack_usable(builtins.builtin),
    ensures
        match request {
            Err(reason) => result matches Err(error) && error@ == reason@,
            Ok(given) => match request_fault(*given) {
                Some(fault) => result matches Err(error) && error@ == fault,
                None => is_response(
                    result,
                    *given,
                    result_plan(builtins.builtin, given.command@),
                    *sources,
                ),
            },
        },
{
    match request {
        Err(reason) => Err(reason.clone()),
        Ok(given) => match check_request(given) {
            Err(error) => Err(error),
            Ok(()) => reduce(given, builtins, sources),
        },
    }
}

} // verus!
