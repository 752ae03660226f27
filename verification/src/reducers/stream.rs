//! The reduction of one output stream.
use vstd::prelude::*;
use vstd::utf8::encode_utf8;

use super::bounded::{
    chosen_output, last_bytes, saves_enough, short_enough, LineAccumulator, LineModel, LineState,
    LineView, ShortRaw,
};
use super::bucket::one_more;
use super::classify::{contains_ascii_insensitive, is_tool_outcome, REGISTERED_DIAGNOSTICS};
use super::evidence::{
    CollectorModel, EvidenceClass, EvidenceCollector, MarkerModel, RecoveryMarker, marker_model,
};
use super::filter::{ansi_step, line_filter_keeps, AnsiState, AnsiStripper};
use crate::bytes::{ends_with, lit, to_lower};
use crate::rewrite::{TransformDiagnostics, TransformPrograms};
use crate::rule_pack::model::{
    Action, LinePattern, OutputPolicy, Reducer, ReducerModel, Rule, RuleModel,
};
use crate::rule_pack::validation::{
    patterns_fault, rule_fault, stream_memory_bound, MAX_STREAM_MEMORY_BYTES,
};
use crate::text::{decimal, digits, join3};

verus! {

/// Which diagnostic terms the source named, and its last bytes in lower case.
#[verifier::ext_equal]
pub struct TermsModel {
    pub matched: Seq<bool>,
    pub recent: Seq<u8>,
}

impl TermsModel {
    /// Nothing seen yet.
    pub open spec fn fresh() -> TermsModel {
        TermsModel { matched: seq![false, false, false, false, false], recent: Seq::empty() }
    }

    /// The terms after one more source byte.
    pub open spec fn pushed(self, byte: u8) -> TermsModel {
        let recent = last_bytes(self.recent.push(crate::bytes::lower(byte)), 11);
        TermsModel {
            matched: Seq::new(
                5,
                |i: int|
                    self.matched[i] || crate::bytes::has_suffix(
                        recent,
                        lit(super::classify::registered_terms()[i]),
                    ),
            ),
            recent,
        }
    }

    /// The terms after a whole byte string was searched.
    pub open spec fn searched(self, body: Seq<u8>) -> TermsModel {
        TermsModel {
            matched: Seq::new(
                5,
                |i: int|
                    self.matched[i] || crate::bytes::has_infix_folded(
                        body,
                        lit(super::classify::registered_terms()[i]),
                    ),
            ),
            recent: self.recent,
        }
    }

    /// The terms at the end of a line.
    pub open spec fn line_ended(self) -> TermsModel {
        TermsModel { recent: Seq::empty(), ..self }
    }
}

/// Follows the registered diagnostic terms through the source bytes.
#[derive(Debug)]
struct RegisteredDiagnosticTracker {
    matched: [bool; 5],
    recent: Vec<u8>,
}

impl View for RegisteredDiagnosticTracker {
    type V = TermsModel;

    closed spec fn view(&self) -> TermsModel {
        TermsModel { matched: self.matched@, recent: self.recent@ }
    }
}

impl RegisteredDiagnosticTracker {
    spec fn well_formed(&self) -> bool {
        self.recent@.len() <= 11
    }

    fn new() -> (tracker: Self)
        ensures
            tracker@ == TermsModel::fresh(),
            tracker.well_formed(),
    {
        let tracker = RegisteredDiagnosticTracker {
            matched: [false, false, false, false, false],
            recent: Vec::new(),
        };
        assert(tracker@.matched =~= TermsModel::fresh().matched);
        tracker
    }

    fn push(&mut self, byte: u8)
        requires
            old(self).well_formed(),
        ensures
            final(self)@ == old(self)@.pushed(byte),
            final(self).well_formed(),
    {
        let ghost before = self@;
        self.recent.push(to_lower(byte));
        if self.recent.len() > 11 {
            let _ = self.recent.remove(0);
        }
        let ghost recent = last_bytes(before.recent.push(crate::bytes::lower(byte)), 11);
        assert(self.recent@ =~= recent);
        let mut i: usize = 0;
        while i < 5
            invariant
                i <= 5,
                self.recent@ == recent,
                recent.len() <= 11,
                before.matched.len() == 5,
                recent == last_bytes(before.recent.push(crate::bytes::lower(byte)), 11),
                forall|j: int| 0 <= j < i ==> self.matched@[j] == before.pushed(byte).matched[j],
                forall|j: int| i <= j < 5 ==> self.matched@[j] == before.matched[j],
            decreases 5 - i,
        {
            let term: &'static str = REGISTERED_DIAGNOSTICS[i];
            assert(term == super::classify::registered_terms()[i as int]);
            if ends_with(self.recent.as_slice(), term.as_bytes()) {
                self.matched[i] = true;
            }
            i += 1;
        }
        assert(self@.matched =~= before.pushed(byte).matched);
    }

    fn observe_slice(&mut self, body: &[u8])
        requires
            old(self).well_formed(),
        ensures
            final(self)@ == old(self)@.searched(body@),
            final(self).well_formed(),
    {
        let ghost before = self@;
        let mut i: usize = 0;
        while i < 5
            invariant
                i <= 5,
                self.recent@ == before.recent,
                before.recent.len() <= 11,
                before.matched.len() == 5,
                forall|j: int| 0 <= j < i ==> self.matched@[j] == before.searched(body@).matched[j],
                forall|j: int| i <= j < 5 ==> self.matched@[j] == before.matched[j],
            decreases 5 - i,
        {
            let term: &'static str = REGISTERED_DIAGNOSTICS[i];
            assert(term == super::classify::registered_terms()[i as int]);
            if !self.matched[i] && contains_ascii_insensitive(body, term.as_bytes()) {
                self.matched[i] = true;
            }
            i += 1;
        }
        assert(self@.matched =~= before.searched(body@).matched);
    }

    fn end_line(&mut self)
        requires
            old(self).well_formed(),
        ensures
            final(self)@ == old(self)@.line_ended(),
            final(self).well_formed(),
    {
        self.recent.clear();
    }
}

/// The name of the output family of a reducer.
pub open spec fn family_of(kind: ReducerModel) -> Seq<char> {
    match kind {
        ReducerModel::SearchSummary => "search"@,
        ReducerModel::DiffSummary => "diff"@,
        ReducerModel::TestSummary => "test"@,
        ReducerModel::BuildSummary => "build"@,
        ReducerModel::LogSummary => "log"@,
        ReducerModel::StatusSummary => "status"@,
        ReducerModel::ListSummary => "list"@,
        ReducerModel::LineFilter { .. } => "line filter"@,
    }
}

fn family_name(kind: &Reducer) -> (name: &'static str)
    ensures
        name@ == family_of(kind@),
{
    match kind {
        Reducer::SearchSummary => "search",
        Reducer::DiffSummary => "diff",
        Reducer::TestSummary => "test",
        Reducer::BuildSummary => "build",
        Reducer::LogSummary => "log",
        Reducer::StatusSummary => "status",
        Reducer::ListSummary => "list",
        Reducer::LineFilter { .. } => "line filter",
    }
}

/// The class that a reducer gives a line.
pub open spec fn class_by(kind: ReducerModel, line: LineModel) -> EvidenceClass {
    match kind {
        ReducerModel::SearchSummary => super::search::class_of(line.prefix),
        ReducerModel::DiffSummary => super::diff::class_of(line.prefix),
        ReducerModel::TestSummary => super::test::class_of(line.prefix),
        ReducerModel::BuildSummary => super::build_output::class_of(line.prefix),
        ReducerModel::LogSummary => super::log::class_of(line.prefix),
        ReducerModel::StatusSummary => super::status::class_of(line.prefix),
        ReducerModel::ListSummary => super::list::class_of(line.prefix),
        ReducerModel::LineFilter { drop, keep, .. } => if super::filter::filter_keeps(
            line,
            drop,
            keep,
        ) {
            EvidenceClass::Example
        } else {
            EvidenceClass::Noise
        },
    }
}

/// Every pattern of the reducer can be compared with a line.
pub open spec fn reducer_usable(kind: ReducerModel) -> bool {
    match kind {
        ReducerModel::LineFilter { drop, keep, .. } => super::filter::all_usable(drop)
            && super::filter::all_usable(keep),
        _ => true,
    }
}

fn classify_line(kind: &Reducer, line: &LineView) -> (class: EvidenceClass)
    requires
        reducer_usable(kind@),
    ensures
        class == class_by(kind@, line@),
{
    let prefix: &[u8] = line.prefix.as_slice();
    match kind {
        Reducer::SearchSummary => super::search::classify(prefix),
        Reducer::DiffSummary => super::diff::classify(prefix),
        Reducer::TestSummary => super::test::classify(prefix),
        Reducer::BuildSummary => super::build_output::classify(prefix),
        Reducer::LogSummary => super::log::classify(prefix),
        Reducer::StatusSummary => super::status::classify(prefix),
        Reducer::ListSummary => super::list::classify(prefix),
        Reducer::LineFilter { drop, keep, .. } => {
            if line_filter_keeps(line, drop.as_slice(), keep.as_slice()) {
                EvidenceClass::Example
            } else {
                EvidenceClass::Noise
            }
        },
    }
}

/// What a [`StreamReducer`] remembers.
#[verifier::ext_equal]
pub struct StreamModel {
    pub kind: ReducerModel,
    pub success_policy: OutputPolicy,
    pub failure_policy: OutputPolicy,
    pub success: CollectorModel,
    pub failure: CollectorModel,
    pub kept: Option<Seq<u8>>,
    pub kept_limit: nat,
    pub line: LineState,
    pub ansi: Option<AnsiState>,
    pub line_number: u64,
    pub diagnostic_context: nat,
    pub terms: TermsModel,
    pub transforms: TransformPrograms,
}

impl StreamModel {
    /// The class of the next line: what the line says by itself, but for lines that follow a
    /// diagnostic and would otherwise be routine or mere examples.
    pub open spec fn class_of(self, line: LineModel) -> EvidenceClass {
        let own = if super::classify::states_tool_outcome(line.prefix) {
            EvidenceClass::Outcome
        } else if self.transforms.names(line.prefix) {
            EvidenceClass::Diagnostic
        } else {
            class_by(self.kind, line)
        };
        if self.diagnostic_context > 0 && (own == EvidenceClass::Noise || own
            == EvidenceClass::Example) {
            EvidenceClass::Context
        } else {
            own
        }
    }

    /// The stream after one more line.
    pub open spec fn with_line(self, line: LineModel) -> StreamModel {
        let class = self.class_of(line);
        let number = one_more(self.line_number);
        let searched = self.terms.searched(line.prefix);
        StreamModel {
            line_number: number,
            diagnostic_context: if class == EvidenceClass::Diagnostic {
                6
            } else if self.diagnostic_context > 0 {
                (self.diagnostic_context - 1) as nat
            } else {
                0
            },
            terms: (if line.truncated {
                searched.searched(line.ending_bytes())
            } else {
                searched
            }).line_ended(),
            success: self.success.observed(number, line, class),
            failure: self.failure.observed(number, line, class),
            ..self
        }
    }

    /// The stream after one more source byte was counted and, if visible, kept.
    pub open spec fn with_byte(self, byte: u8) -> StreamModel {
        let observed = self.line.observed(byte);
        let visible = match self.ansi {
            Some(state) => ansi_step(state, byte).1,
            None => true,
        };
        StreamModel {
            line: if visible {
                observed.extended(byte)
            } else {
                observed
            },
            terms: if observed.near_limit() {
                self.terms.pushed(byte)
            } else {
                self.terms
            },
            ansi: match self.ansi {
                Some(state) => Some(ansi_step(state, byte).0),
                None => None,
            },
            ..self
        }
    }

    /// The stream at the end of a line.
    pub open spec fn with_line_end(self) -> StreamModel {
        (StreamModel { line: self.line.cleared(), ..self }).with_line(self.line.line())
    }

    /// The stream after one more source byte.
    pub open spec fn step(self, byte: u8) -> StreamModel {
        if byte == 10 {
            self.with_byte(byte).with_line_end()
        } else {
            self.with_byte(byte)
        }
    }

    /// The stream after some source bytes, but for the raw output.
    pub open spec fn scanned(self, input: Seq<u8>) -> StreamModel
        decreases input.len(),
    {
        if input.len() == 0 {
            self
        } else {
            self.scanned(input.drop_last()).step(input.last())
        }
    }

    /// The stream after one more chunk.
    pub open spec fn fed(self, chunk: Seq<u8>) -> StreamModel {
        StreamModel {
            kept: short_enough(self.kept, self.kept_limit, chunk),
            ..self.scanned(chunk)
        }
    }

    /// The stream after its last line.
    pub open spec fn ended(self) -> StreamModel {
        if self.line.total_bytes == 0 {
            self
        } else {
            self.with_line_end()
        }
    }

    /// What is shown of the stream.
    pub open spec fn result(self, success: bool, recovery: Option<MarkerModel>) -> Seq<u8> {
        let ended = self.ended();
        let collector = if success {
            ended.success
        } else {
            ended.failure
        };
        let policy = if success {
            self.success_policy
        } else {
            self.failure_policy
        };
        chosen_output(
            self.kept,
            collector.summary(recovery, ended.terms.matched, success),
            policy,
        )
    }

    /// The lines, terms and records stay within their bounds.
    pub open spec fn bounded(self) -> bool {
        &&& self.success.bounded()
        &&& self.failure.bounded()
        &&& self.success.policy == self.success_policy
        &&& self.failure.policy == self.failure_policy
        &&& self.line.bounded()
        &&& self.terms.recent.len() <= 11
        &&& self.diagnostic_context <= 6
        &&& self.kept matches Some(raw) ==> raw.len() <= self.kept_limit
    }
}

proof fn lemma_scanned_keeps_raw(stream: StreamModel, input: Seq<u8>)
    ensures
        stream.scanned(input).kept == stream.kept,
        stream.scanned(input).kept_limit == stream.kept_limit,
    decreases input.len(),
{
    if input.len() > 0 {
        lemma_scanned_keeps_raw(stream, input.drop_last());
    }
}

proof fn lemma_raw_stays_out_of_the_scan(
    stream: StreamModel,
    kept: Option<Seq<u8>>,
    input: Seq<u8>,
)
    ensures
        (StreamModel { kept, ..stream }).scanned(input) == (StreamModel {
            kept,
            ..stream.scanned(input)
        }),
    decreases input.len(),
{
    if input.len() > 0 {
        lemma_raw_stays_out_of_the_scan(stream, kept, input.drop_last());
    }
}

proof fn lemma_scanned_in_parts(stream: StreamModel, first: Seq<u8>, second: Seq<u8>)
    ensures
        stream.scanned(first).scanned(second) == stream.scanned(first + second),
    decreases second.len(),
{
    if second.len() == 0 {
        assert(first + second =~= first);
    } else {
        lemma_scanned_in_parts(stream, first, second.drop_last());
        assert((first + second).drop_last() =~= first + second.drop_last());
        assert((first + second).last() == second.last());
    }
}

/// The output does not depend on how the input was cut into chunks.
pub proof fn lemma_stream_ignores_chunk_boundaries(
    stream: StreamModel,
    first: Seq<u8>,
    second: Seq<u8>,
)
    ensures
        stream.fed(first).fed(second) == stream.fed(first + second),
{
    let kept = short_enough(stream.kept, stream.kept_limit, first);
    lemma_scanned_keeps_raw(stream, first);
    lemma_raw_stays_out_of_the_scan(stream.scanned(first), kept, second);
    lemma_scanned_in_parts(stream, first, second);
    super::bounded::lemma_short_raw_ignores_chunk_boundaries(
        stream.kept,
        stream.kept_limit,
        first,
        second,
    );
}

proof fn lemma_ended_keeps_policies(stream: StreamModel)
    ensures
        stream.ended().success.policy == stream.success.policy,
        stream.ended().failure.policy == stream.failure.policy,
{
    let line = stream.line.line();
    let cleared = StreamModel { line: stream.line.cleared(), ..stream };
    let class = cleared.class_of(line);
    super::evidence::lemma_observed_keeps_policy(
        stream.success,
        one_more(stream.line_number),
        line,
        class,
    );
    super::evidence::lemma_observed_keeps_policy(
        stream.failure,
        one_more(stream.line_number),
        line,
        class,
    );
}

proof fn lemma_choice_within_budget(
    kept: Option<Seq<u8>>,
    reduced: Seq<u8>,
    policy: OutputPolicy,
)
    requires
        reduced.len() <= policy.max_output_bytes,
    ensures
        chosen_output(kept, reduced, policy).len() <= policy.max_output_bytes,
{
}

/// Whatever the input, the shown output stays within the budget of its policy.
pub proof fn lemma_result_within_budget(
    stream: StreamModel,
    success: bool,
    recovery: Option<MarkerModel>,
)
    requires
        stream.bounded(),
    ensures
        stream.result(success, recovery).len() <= if success {
            stream.success_policy.max_output_bytes
        } else {
            stream.failure_policy.max_output_bytes
        },
{
    let ended = stream.ended();
    lemma_ended_keeps_policies(stream);
    let collector = if success {
        ended.success
    } else {
        ended.failure
    };
    let policy = if success {
        stream.success_policy
    } else {
        stream.failure_policy
    };
    super::evidence::lemma_summary_within_budget(
        collector,
        recovery,
        ended.terms.matched,
        success,
    );
    lemma_choice_within_budget(
        stream.kept,
        collector.summary(recovery, ended.terms.matched, success),
        policy,
    );
}

/// Why no stream can be reduced with a rule.
pub open spec fn stream_fault(rule: RuleModel) -> Option<Seq<char>> {
    if rule.action != Action::Reduce {
        Some("cannot create a reducer for a passthrough rule"@)
    } else {
        match crate::rule_pack::validation::rule_memory_bound(rule) {
            Err(fault) => Some(fault),
            Ok(bound) => if bound > MAX_STREAM_MEMORY_BYTES {
                Some(
                    "rule requires "@ + digits(bound)
                        + " bytes per stream, above the 4194304-byte limit"@,
                )
            } else {
                None
            },
        }
    }
}

impl StreamModel {
    /// A stream before its first byte.
    pub open spec fn fresh(
        kind: ReducerModel,
        success: OutputPolicy,
        failure: OutputPolicy,
        transforms: TransformPrograms,
    ) -> StreamModel {
        let max_line = crate::rule_pack::validation::larger(
            success.max_line_bytes,
            failure.max_line_bytes,
        );
        StreamModel {
            kind,
            success_policy: success,
            failure_policy: failure,
            success: CollectorModel::fresh(family_of(kind), success),
            failure: CollectorModel::fresh(family_of(kind), failure),
            kept: Some(Seq::empty()),
            kept_limit: crate::rule_pack::validation::larger(
                success.max_output_bytes,
                failure.max_output_bytes,
            ),
            line: LineState::fresh(max_line, max_line),
            ansi: match kind {
                ReducerModel::LineFilter { strip_ansi: false, .. } => None,
                _ => Some(AnsiState::Ground),
            },
            line_number: 0,
            diagnostic_context: 0,
            terms: TermsModel::fresh(),
            transforms,
        }
    }

    /// A stream of a complete reduction rule before its first byte.
    pub open spec fn of_rule(rule: RuleModel, transforms: TransformPrograms) -> StreamModel {
        StreamModel::fresh(rule.reducer->0, rule.success->0, rule.failure->0, transforms)
    }
}

/// Every pattern of the rule's reducer can be compared with a line.
pub open spec fn rule_usable(rule: RuleModel) -> bool {
    rule.reducer matches Some(reducer) ==> reducer_usable(reducer)
}

proof fn lemma_patterns_usable(patterns: Seq<LinePattern>, count: nat)
    requires
        count <= patterns.len(),
        patterns_fault(patterns, count) is None,
    ensures
        forall|i: int| 0 <= i < count ==> super::filter::usable(#[trigger] patterns[i]),
    decreases count,
{
    if count > 0 {
        lemma_patterns_usable(patterns, (count - 1) as nat);
        let value = patterns[count - 1].value@;
        if value.len() == 0 {
            assert(encode_utf8(value).len() == 0);
        }
    }
}

/// A valid rule can be used: its patterns can be compared with lines, and if it reduces output,
/// a stream can be reduced with it.
pub proof fn lemma_valid_rule_is_usable(rule: Rule)
    requires
        rule_fault(rule) is None,
    ensures
        rule_usable(rule@),
        rule.action == Action::Reduce ==> stream_fault(rule@) is None,
{
    reveal(rule_fault);
    if let Some(Reducer::LineFilter { strip_ansi, drop, keep }) = rule.reducer {
        let patterns = drop@ + keep@;
        lemma_patterns_usable(patterns, patterns.len());
        assert forall|i: int| 0 <= i < drop@.len() implies super::filter::usable(
            #[trigger] drop@[i],
        ) by {
            assert(patterns[i] == drop@[i]);
        }
        assert forall|i: int| 0 <= i < keep@.len() implies super::filter::usable(
            #[trigger] keep@[i],
        ) by {
            assert(patterns[drop@.len() + i] == keep@[i]);
        }
    }
}

proof fn lemma_scanned_keeps_policies(stream: StreamModel, input: Seq<u8>)
    ensures
        stream.scanned(input).success_policy == stream.success_policy,
        stream.scanned(input).failure_policy == stream.failure_policy,
    decreases input.len(),
{
    if input.len() > 0 {
        lemma_scanned_keeps_policies(stream, input.drop_last());
    }
}

/// Output that fits the budget stays exactly as it is, unless its summary saves what the policy
/// asks for. Output shorter than the least saving therefore always stays as it is.
pub proof fn lemma_short_output_stays_exact(
    rule: RuleModel,
    transforms: TransformPrograms,
    input: Seq<u8>,
    success: bool,
    recovery: Option<MarkerModel>,
)
    ensures
        ({
            let policy = if success {
                rule.success->0
            } else {
                rule.failure->0
            };
            let output = StreamModel::of_rule(rule, transforms).fed(input).result(success, recovery);
            input.len() <= policy.max_output_bytes ==> {
                &&& output == input || saves_enough(input, output, policy)
                &&& input.len() < policy.min_savings_bytes ==> output == input
            }
        }),
{
    let stream = StreamModel::of_rule(rule, transforms);
    lemma_scanned_keeps_policies(stream, input);
    assert(Seq::<u8>::empty() + input =~= input);
}

/// Reduces one output stream within bounded memory.
#[derive(Debug)]
pub struct StreamReducer {
    kind: Reducer,
    success_policy: OutputPolicy,
    failure_policy: OutputPolicy,
    success: EvidenceCollector,
    failure: EvidenceCollector,
    raw: ShortRaw,
    line: LineAccumulator,
    ansi: Option<AnsiStripper>,
    line_number: u64,
    diagnostic_context: usize,
    registered_diagnostics: RegisteredDiagnosticTracker,
    transform_diagnostics: TransformDiagnostics,
}

impl View for StreamReducer {
    type V = StreamModel;

    closed spec fn view(&self) -> StreamModel {
        StreamModel {
            kind: self.kind@,
            success_policy: self.success_policy,
            failure_policy: self.failure_policy,
            success: self.success@,
            failure: self.failure@,
            kept: self.raw.kept(),
            kept_limit: self.raw.limit(),
            line: self.line@,
            ansi: match self.ansi {
                Some(stripper) => Some(stripper@),
                None => None,
            },
            line_number: self.line_number,
            diagnostic_context: self.diagnostic_context as nat,
            terms: self.registered_diagnostics@,
            transforms: self.transform_diagnostics@,
        }
    }
}

impl StreamReducer {
    /// The parts are well formed and the patterns can be compared.
    pub closed spec fn well_formed(&self) -> bool {
        &&& self.success.well_formed()
        &&& self.failure.well_formed()
        &&& self.success@.policy == self.success_policy
        &&& self.failure@.policy == self.failure_policy
        &&& self.raw.well_formed()
        &&& self.line@.bounded()
        &&& self.registered_diagnostics.well_formed()
        &&& self.diagnostic_context <= 6
        &&& reducer_usable(self.kind@)
    }

    /// Build the state for one reduction rule.
    ///
    /// # Errors
    ///
    /// Returns an error when the rule is not a complete reduction rule or needs too much memory.
    pub fn new(rule: &Rule) -> (result: Result<Self, String>)
        requires
            rule_usable(rule@),
        ensures
            result is Ok <==> stream_fault(rule@) is None,
            result matches Err(error) ==> Some(error@) == stream_fault(rule@),
            result matches Ok(stream) ==> stream.well_formed() && stream@ == StreamModel::of_rule(
                rule@,
                TransformPrograms::none(),
            ),
    {
        StreamReducer::new_with_transform_diagnostics(rule, TransformDiagnostics::default())
    }

    /// Build the state for one reduction rule whose lines went through line-preserving programs.
    ///
    /// # Errors
    ///
    /// Returns an error when the rule is not a complete reduction rule or needs too much memory.
    pub fn new_with_transform_diagnostics(
        rule: &Rule,
        transform_diagnostics: TransformDiagnostics,
    ) -> (result: Result<Self, String>)
        requires
            rule_usable(rule@),
        ensures
            result is Ok <==> stream_fault(rule@) is None,
            result matches Err(error) ==> Some(error@) == stream_fault(rule@),
            result matches Ok(stream) ==> stream.well_formed() && stream@ == StreamModel::of_rule(
                rule@,
                transform_diagnostics@,
            ),
    {
        if rule.action != Action::Reduce {
            return Err("cannot create a reducer for a passthrough rule".to_owned());
        }
        let memory_bound: usize = stream_memory_bound(rule)?;
        if memory_bound > MAX_STREAM_MEMORY_BYTES {
            return Err(
                join3(
                    "rule requires ",
                    decimal(memory_bound as u64).as_str(),
                    " bytes per stream, above the 4194304-byte limit",
                ),
            );
        }
        let Some(reducer) = &rule.reducer else {
            return Err("reduction rule is missing a reducer".to_owned());
        };
        let Some(success_policy) = rule.success else {
            return Err("reduction rule is missing a success policy".to_owned());
        };
        let Some(failure_policy) = rule.failure else {
            return Err("reduction rule is missing a failure policy".to_owned());
        };
        let kind = reducer.duplicate();
        let max_line: usize = if success_policy.max_line_bytes > failure_policy.max_line_bytes {
            success_policy.max_line_bytes
        } else {
            failure_policy.max_line_bytes
        };
        let strip_ansi: bool = match &kind {
            Reducer::LineFilter { strip_ansi, .. } => *strip_ansi,
            _ => true,
        };
        let family: &'static str = family_name(&kind);
        let stream = StreamReducer {
            kind,
            success_policy,
            failure_policy,
            success: EvidenceCollector::new(family, success_policy),
            failure: EvidenceCollector::new(family, failure_policy),
            raw: ShortRaw::new(success_policy, failure_policy),
            line: LineAccumulator::new(max_line, max_line),
            ansi: if strip_ansi {
                Some(AnsiStripper::new())
            } else {
                None
            },
            line_number: 0,
            diagnostic_context: 0,
            registered_diagnostics: RegisteredDiagnosticTracker::new(),
            transform_diagnostics,
        };
        Ok(stream)
    }

    fn process_line(&mut self, line: &LineView)
        requires
            old(self).well_formed(),
        ensures
            final(self).well_formed(),
            final(self)@ == old(self)@.with_line(line@),
    {
        let ghost before = self@;
        self.line_number = self.line_number.saturating_add(1);
        self.registered_diagnostics.observe_slice(line.prefix.as_slice());
        if line.truncated {
            let tail = line.tail_bytes();
            self.registered_diagnostics.observe_slice(tail.as_slice());
        }
        let mut class: EvidenceClass = if is_tool_outcome(line.prefix.as_slice()) {
            EvidenceClass::Outcome
        } else if self.transform_diagnostics.matches_line(line.prefix.as_slice()) {
            EvidenceClass::Diagnostic
        } else {
            classify_line(&self.kind, line)
        };
        if class == EvidenceClass::Diagnostic {
            self.diagnostic_context = 6;
        } else if self.diagnostic_context > 0 {
            if class == EvidenceClass::Noise || class == EvidenceClass::Example {
                class = EvidenceClass::Context;
            }
            self.diagnostic_context = self.diagnostic_context - 1;
        }
        assert(class == before.class_of(line@));
        self.registered_diagnostics.end_line();
        proof {
            super::evidence::lemma_observed_keeps_policy(
                before.success,
                self.line_number,
                line@,
                class,
            );
            super::evidence::lemma_observed_keeps_policy(
                before.failure,
                self.line_number,
                line@,
                class,
            );
        }
        let number: u64 = self.line_number;
        self.success.observe(number, line, class);
        self.failure.observe(number, line, class);
    }

    fn push_byte(&mut self, byte: u8)
        requires
            old(self).well_formed(),
        ensures
            final(self).well_formed(),
            final(self)@ == old(self)@.with_byte(byte),
    {
        let ghost before = self@;
        if self.line.observe_source(byte) {
            self.registered_diagnostics.push(byte);
        }
        let mut visible = true;
        let mut ansi: Option<AnsiStripper> = None;
        std::mem::swap(&mut ansi, &mut self.ansi);
        if let Some(mut stripper) = ansi {
            visible = stripper.push_byte(byte).is_some();
            self.ansi = Some(stripper);
        }
        if visible {
            self.line.push_output(byte);
        }
    }

    /// Take one more chunk of output.
    pub fn push(&mut self, chunk: &[u8])
        requires
            old(self).well_formed(),
        ensures
            final(self).well_formed(),
            final(self)@ == old(self)@.fed(chunk@),
    {
        let ghost before = self@;
        let ghost kept = short_enough(before.kept, before.kept_limit, chunk@);
        self.raw.push(chunk);
        let ghost start = StreamModel { kept, ..before };
        let mut i: usize = 0;
        assert(self@ == start.scanned(chunk@.take(0)));
        while i < chunk.len()
            invariant
                i <= chunk.len(),
                self.well_formed(),
                self@ == start.scanned(chunk@.take(i as int)),
            decreases chunk.len() - i,
        {
            proof {
                assert(chunk@.take(i + 1).drop_last() =~= chunk@.take(i as int));
                assert(chunk@.take(i + 1).last() == chunk@[i as int]);
            }
            let byte: u8 = chunk[i];
            self.push_byte(byte);
            if byte == 10 {
                let line = self.line.take();
                self.process_line(&line);
            }
            i += 1;
        }
        proof {
            assert(chunk@.take(chunk@.len() as int) =~= chunk@);
            lemma_raw_stays_out_of_the_scan(before, kept, chunk@);
        }
    }

    /// End the stream and choose what is shown of it.
    #[must_use]
    pub fn finish(self, success: bool, recovery: Option<RecoveryMarker<'_>>) -> (output: Vec<u8>)
        requires
            self.well_formed(),
        ensures
            output@ == self@.result(success, marker_model(recovery)),
            output@.len() <= if success {
                self@.success_policy.max_output_bytes
            } else {
                self@.failure_policy.max_output_bytes
            },
    {
        let ghost model = self@;
        let mut stream = self;
        proof {
            stream.success.lemma_bounded();
            stream.failure.lemma_bounded();
            stream.raw.lemma_kept_within_limit();
            lemma_result_within_budget(model, success, marker_model(recovery));
        }
        if !stream.line.is_empty() {
            let line = stream.line.take();
            stream.process_line(&line);
        }
        assert(stream@ == model.ended());
        let matched = stream.registered_diagnostics.matched;
        let reduced = if success {
            stream.success.render(recovery, matched, success)
        } else {
            stream.failure.render(recovery, matched, success)
        };
        let policy: OutputPolicy = if success {
            stream.success_policy
        } else {
            stream.failure_policy
        };
        stream.raw.choose_output(reduced, policy)
    }
}

/// Reduce a whole byte stream at once.
///
/// # Errors
///
/// Returns an error when the rule is not a complete reduction rule or needs too much memory.
pub fn reduce_bytes(rule: &Rule, input: &[u8], success: bool) -> (result: Result<Vec<u8>, String>)
    requires
        rule_usable(rule@),
    ensures
        result is Ok <==> stream_fault(rule@) is None,
        result matches Err(error) ==> Some(error@) == stream_fault(rule@),
        result matches Ok(output) ==> output@ == StreamModel::of_rule(
            rule@,
            TransformPrograms::none(),
        ).fed(input@).result(success, None),
{
    reduce_bytes_with_recovery(rule, input, success, None)
}

/// Reduce a whole byte stream at once and say where the exact output can be found again.
///
/// # Errors
///
/// Returns an error when the rule is not a complete reduction rule or needs too much memory.
pub fn reduce_bytes_with_recovery(
    rule: &Rule,
    input: &[u8],
    success: bool,
    recovery: Option<RecoveryMarker<'_>>,
) -> (result: Result<Vec<u8>, String>)
    requires
        rule_usable(rule@),
    ensures
        result is Ok <==> stream_fault(rule@) is None,
        result matches Err(error) ==> Some(error@) == stream_fault(rule@),
        result matches Ok(output) ==> output@ == StreamModel::of_rule(
            rule@,
            TransformPrograms::none(),
        ).fed(input@).result(success, marker_model(recovery)),
{
    let mut reducer = StreamReducer::new(rule)?;
    reducer.push(input);
    Ok(reducer.finish(success, recovery))
}

/// Calculate the retained-memory bound for one stream of a rule.
///
/// # Errors
///
/// Returns an error when the rule is incomplete or the bound does not fit in a machine word.
pub fn configured_memory_bound(rule: &Rule) -> (result: Result<usize, String>)
    ensures
        crate::rule_pack::validation::sized(result)
            == crate::rule_pack::validation::rule_memory_bound(rule@),
{
    stream_memory_bound(rule)
}

} // verus!
