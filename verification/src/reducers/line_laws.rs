//! What holds of single lines: control sequences, patterns, the context of changes, and the choice
//! between raw and reduced output.
use vstd::prelude::*;

use super::bounded::{LineModel, chosen_output, first_bytes, last_bytes, rendered_line};
use super::filter::{
    AnsiState, ansi_run, ansi_step, cargo_test_line_counts, filter_keeps,
    lemma_ansi_ignores_chunk_boundaries, pattern_holds, trimmed,
};
use super::git_diff::{DiffContext, without_newline};
use super::wording::{
    exact_word_at, is_plain, lemma_plain, lemma_word_at, mentions, opens_exactly, word_at,
};
use crate::bytes::{
    folded, has_any_infix_folded, has_any_prefix, has_infix_folded, has_prefix, lit, occurs_at,
    without_leading_blanks, without_line_ending, without_trailing_blanks,
};
use crate::rule_pack::model::{LinePattern, OutputPolicy, PatternCase, PatternKind, PatternTrim};

verus! {

/// Bytes without an escape are shown as they are.
pub proof fn lemma_plain_bytes_are_shown(input: Seq<u8>)
    requires
        forall|i: int| 0 <= i < input.len() ==> #[trigger] input[i] != 0x1b,
    ensures
        ansi_run(AnsiState::Ground, input) == (AnsiState::Ground, input),
    decreases input.len(),
{
    if input.len() > 0 {
        lemma_plain_bytes_are_shown(input.drop_last());
        assert(input.drop_last().push(input.last()) =~= input);
    } else {
        assert(input =~= Seq::empty());
    }
}

/// Line breaks are shown wherever they stand, and end no control sequence.
pub proof fn lemma_line_breaks_are_shown(state: AnsiState)
    ensures
        ansi_step(state, 10) == (state, true),
        ansi_step(state, 13) == (state, true),
{
}

/// A control sequence that begins with `ESC [`: some bytes, and one between `@` and `~`.
pub open spec fn is_csi(sequence: Seq<u8>) -> bool {
    &&& sequence.len() >= 3
    &&& sequence[0] == 0x1b
    &&& sequence[1] == 0x5b
    &&& 0x40 <= sequence.last() <= 0x7e
    &&& forall|i: int|
        2 <= i < sequence.len() - 1 ==> #[trigger] sequence[i] != 10 && sequence[i] != 13 && !(0x40
            <= sequence[i] <= 0x7e)
}

/// A control sequence that begins with `ESC ]` and ends with a bell.
pub open spec fn is_osc(sequence: Seq<u8>) -> bool {
    &&& sequence.len() >= 3
    &&& sequence[0] == 0x1b
    &&& sequence[1] == 0x5d
    &&& sequence.last() == 0x07
    &&& forall|i: int|
        2 <= i < sequence.len() - 1 ==> #[trigger] sequence[i] != 10 && sequence[i] != 13
            && sequence[i] != 0x07 && sequence[i] != 0x1b
}

proof fn lemma_sequence_runs(sequence: Seq<u8>, count: int)
    requires
        is_csi(sequence) || is_osc(sequence),
        2 <= count < sequence.len(),
    ensures
        ansi_run(AnsiState::Ground, sequence.take(count)) == (if is_csi(sequence) {
            AnsiState::Csi
        } else {
            AnsiState::Osc
        }, Seq::<u8>::empty()),
    decreases count,
{
    let part = sequence.take(count);
    assert(part.drop_last() =~= sequence.take(count - 1));
    if count == 2 {
        let one = sequence.take(1);
        assert(one.drop_last() =~= Seq::empty());
        reveal_with_fuel(ansi_run, 3);
        assert(ansi_run(AnsiState::Ground, one) == (AnsiState::Escape, Seq::<u8>::empty()));
        assert(part.last() == sequence[1]);
    } else {
        lemma_sequence_runs(sequence, count - 1);
        assert(part.last() == sequence[count - 1]);
    }
}

proof fn lemma_sequence_is_hidden(sequence: Seq<u8>)
    requires
        is_csi(sequence) || is_osc(sequence),
    ensures
        ansi_run(AnsiState::Ground, sequence) == (AnsiState::Ground, Seq::<u8>::empty()),
{
    lemma_sequence_runs(sequence, sequence.len() - 1);
    assert(sequence.drop_last() =~= sequence.take(sequence.len() - 1));
}

/// A control sequence is removed, and nothing else: what stands before and behind it is shown.
pub proof fn lemma_control_sequences_are_removed(
    before: Seq<u8>,
    sequence: Seq<u8>,
    after: Seq<u8>,
)
    requires
        is_csi(sequence) || is_osc(sequence),
        forall|i: int| 0 <= i < before.len() ==> #[trigger] before[i] != 0x1b,
        forall|i: int| 0 <= i < after.len() ==> #[trigger] after[i] != 0x1b,
    ensures
        ansi_run(AnsiState::Ground, before + sequence + after) == (
            AnsiState::Ground,
            before + after,
        ),
{
    lemma_plain_bytes_are_shown(before);
    lemma_plain_bytes_are_shown(after);
    lemma_sequence_is_hidden(sequence);
    lemma_ansi_ignores_chunk_boundaries(AnsiState::Ground, before, sequence);
    lemma_ansi_ignores_chunk_boundaries(AnsiState::Ground, before + sequence, after);
    assert(before + Seq::<u8>::empty() =~= before);
}

/// A whole line with the given bytes in front of its line feed.
pub open spec fn whole_line(line: LineModel, body: Seq<u8>) -> bool {
    &&& !line.truncated
    &&& line.prefix == body.push(10)
    &&& body.len() > 0 ==> body.last() != 13
}

proof fn lemma_body_of(line: LineModel, body: Seq<u8>)
    requires
        whole_line(line, body),
    ensures
        without_line_ending(line.prefix) == body,
        without_line_ending(line.ending_bytes()) == body,
{
    let whole = body.push(10);
    assert(whole.drop_last() =~= body);
    if whole.len() >= 2 {
        assert(whole[whole.len() - 2] == body.last());
    }
}

/// A pattern that neither trims nor folds matches a line that is its value, begins with it, ends
/// with it, or holds it somewhere, as its kind says.
pub proof fn lemma_exact_patterns(pattern: LinePattern, line: LineModel, body: Seq<u8>)
    requires
        whole_line(line, body),
        pattern.trim == PatternTrim::Untrimmed,
        pattern.case == PatternCase::Sensitive,
    ensures
        ({
            let value = vstd::utf8::encode_utf8(pattern.value@);
            match pattern.kind {
                PatternKind::Exact => pattern_holds(pattern, line) <==> body == value,
                PatternKind::Prefix => pattern_holds(pattern, line) <==> exact_word_at(
                    body,
                    value,
                    0,
                ),
                PatternKind::Suffix => pattern_holds(pattern, line) <==> exact_word_at(
                    body,
                    value,
                    body.len() - value.len(),
                ),
                PatternKind::Contains => pattern_holds(pattern, line) <==> exists|at: int| #[trigger]
                    exact_word_at(body, value, at),
            }
        }),
{
    let value = vstd::utf8::encode_utf8(pattern.value@);
    lemma_body_of(line, body);
    lemma_word_at(body, value, 0);
    lemma_word_at(body, value, body.len() - value.len());
    if pattern.kind == PatternKind::Contains {
        if pattern_holds(pattern, line) {
            let at = choose|at: int| #[trigger] occurs_at(body, value, at);
            lemma_word_at(body, value, at);
        }
        if exists|at: int| #[trigger] exact_word_at(body, value, at) {
            let at = choose|at: int| #[trigger] exact_word_at(body, value, at);
            lemma_word_at(body, value, at);
        }
    }
}

/// A pattern that folds ASCII case matches as one that does not, but for the case of letters.
pub proof fn lemma_folding_patterns(pattern: LinePattern, line: LineModel, body: Seq<u8>)
    requires
        whole_line(line, body),
        pattern.trim == PatternTrim::Untrimmed,
        pattern.case == PatternCase::AsciiInsensitive,
        pattern.value@.len() > 0,
    ensures
        ({
            let value = vstd::utf8::encode_utf8(pattern.value@);
            match pattern.kind {
                PatternKind::Exact => pattern_holds(pattern, line) <==> body.len() == value.len()
                    && word_at(body, value, 0),
                PatternKind::Prefix => pattern_holds(pattern, line) <==> word_at(body, value, 0),
                PatternKind::Suffix => pattern_holds(pattern, line) <==> word_at(
                    body,
                    value,
                    body.len() - value.len(),
                ),
                PatternKind::Contains => pattern_holds(pattern, line) <==> exists|at: int| #[trigger]
                    word_at(body, value, at),
            }
        }),
{
    let value = vstd::utf8::encode_utf8(pattern.value@);
    vstd::utf8::encode_utf8_first_scalar(pattern.value@);
    lemma_body_of(line, body);
    lemma_word_at(body, value, 0);
    lemma_word_at(body, value, body.len() - value.len());
    if pattern.kind == PatternKind::Exact {
        assert(folded(body).len() == body.len() && folded(value).len() == value.len());
        if body.len() == value.len() {
            assert(folded(body).subrange(0, value.len() as int) =~= folded(body));
        }
    }
    if pattern.kind == PatternKind::Contains {
        if pattern_holds(pattern, line) {
            let at = choose|at: int| #[trigger] occurs_at(folded(body), folded(value), at);
            lemma_word_at(body, value, at);
        }
        if exists|at: int| #[trigger] word_at(body, value, at) {
            let at = choose|at: int| #[trigger] word_at(body, value, at);
            lemma_word_at(body, value, at);
        }
    }
}

/// Every byte is a space or a tab.
pub open spec fn all_blank(value: Seq<u8>) -> bool {
    forall|i: int| 0 <= i < value.len() ==> #[trigger] value[i] == 32 || value[i] == 9
}

proof fn lemma_leading(blanks: Seq<u8>, body: Seq<u8>)
    requires
        all_blank(blanks),
        body.len() > 0,
        body[0] != 32 && body[0] != 9,
    ensures
        without_leading_blanks(blanks + body) == body,
    decreases blanks.len(),
{
    let whole = blanks + body;
    if blanks.len() == 0 {
        assert(whole =~= body);
    } else {
        assert(whole[0] == blanks[0]);
        assert(whole.drop_first() =~= blanks.drop_first() + body);
        assert forall|i: int| 0 <= i < blanks.drop_first().len() implies #[trigger] blanks.drop_first()[i]
            == 32 || blanks.drop_first()[i] == 9 by {
            assert(blanks.drop_first()[i] == blanks[i + 1]);
        }
        lemma_leading(blanks.drop_first(), body);
    }
}

proof fn lemma_trailing(body: Seq<u8>, blanks: Seq<u8>)
    requires
        all_blank(blanks),
        body.len() > 0,
        body.last() != 32 && body.last() != 9,
    ensures
        without_trailing_blanks(body + blanks) == body,
    decreases blanks.len(),
{
    let whole = body + blanks;
    if blanks.len() == 0 {
        assert(whole =~= body);
    } else {
        assert(whole.last() == blanks.last());
        assert(whole.drop_last() =~= body + blanks.drop_last());
        lemma_trailing(body, blanks.drop_last());
    }
}

/// A pattern that trims sees the line without the blanks in front of it, and, where it trims both
/// ends, without those behind it.
pub proof fn lemma_trimming_patterns(
    pattern: LinePattern,
    before: Seq<u8>,
    body: Seq<u8>,
    after: Seq<u8>,
    blank_line: LineModel,
    line: LineModel,
)
    requires
        all_blank(before),
        all_blank(after),
        body.len() > 0,
        body[0] != 32 && body[0] != 9,
        body.last() != 32 && body.last() != 9,
        pattern.trim == PatternTrim::Start ==> after.len() == 0,
        pattern.trim != PatternTrim::Untrimmed,
        whole_line(line, body),
        whole_line(blank_line, before + body + after),
    ensures
        pattern_holds(pattern, blank_line) == pattern_holds(
            LinePattern { trim: PatternTrim::Untrimmed, ..pattern },
            line,
        ),
{
    let whole = before + body + after;
    lemma_body_of(line, body);
    lemma_body_of(blank_line, whole);
    assert(whole =~= before + (body + after));
    assert((body + after)[0] == body[0]);
    lemma_leading(before, body + after);
    lemma_trailing(body, after);
    if after.len() == 0 {
        assert(body + after =~= body);
    }
    assert(trimmed(whole, pattern.trim) == body);
}

/// What drops a line wins over what keeps it. Without a pattern that keeps, every line is kept that
/// nothing drops; with some, a line that was not shortened needs one of them.
pub proof fn lemma_dropping_wins(
    line: LineModel,
    drop: Seq<LinePattern>,
    keep: Seq<LinePattern>,
    place: int,
)
    ensures
        0 <= place < drop.len() && pattern_holds(drop[place], line) ==> !filter_keeps(
            line,
            drop,
            keep,
        ),
        drop.len() == 0 && keep.len() == 0 ==> filter_keeps(line, drop, keep),
        drop.len() == 0 && 0 <= place < keep.len() && pattern_holds(keep[place], line)
            ==> filter_keeps(line, drop, keep),
        filter_keeps(line, drop, keep) && keep.len() > 0 && !line.truncated ==> exists|i: int|
            0 <= i < keep.len() && pattern_holds(#[trigger] keep[i], line),
        !filter_keeps(line, drop, keep) && keep.len() == 0 ==> exists|i: int|
            0 <= i < drop.len() && pattern_holds(#[trigger] drop[i], line),
        line.truncated && drop.len() == 0 ==> filter_keeps(line, drop, keep),
{
}

/// A line that adds or removes text: it begins with one sign, not with three.
pub open spec fn is_changed(line: LineModel) -> bool {
    &&& line.prefix.len() > 0
    &&& line.prefix[0] == 43 || line.prefix[0] == 45
    &&& !(line.prefix.len() >= 3 && line.prefix[1] == line.prefix[0] && line.prefix[2]
        == line.prefix[0])
}

/// A line of context: it begins with a space.
pub open spec fn is_context(line: LineModel) -> bool {
    line.prefix.len() > 0 && line.prefix[0] == 32
}

/// Every changed line of a diff is kept, with up to three lines of context on both sides of it. Any
/// line that is neither changed nor context is kept too.
pub proof fn lemma_changes_keep_their_context(context: DiffContext, line: LineModel)
    requires
        context.bounded(),
    ensures
        is_changed(line) ==> {
            &&& context.step(line).kept == context.pending.push(line)
            &&& context.step(line).omitted.len() == 0
            &&& context.step(line).context.pending.len() == 0
            &&& context.step(line).context.after_change == 3
        },
        is_context(line) && context.after_change > 0 ==> {
            &&& context.step(line).kept == seq![line]
            &&& context.step(line).omitted.len() == 0
            &&& context.step(line).context.after_change == context.after_change - 1
        },
        is_context(line) && context.after_change == 0 ==> {
            &&& context.step(line).kept.len() == 0
            &&& context.step(line).context.pending.len() > 0
            &&& context.step(line).context.pending.last() == line
            &&& context.step(line).context.pending.len() == if context.pending.len() == 3 {
                3nat
            } else {
                context.pending.len() + 1
            }
            &&& context.pending.len() < 3 ==> context.step(line).omitted.len() == 0
        },
        !is_changed(line) && !is_context(line) ==> context.step(line).kept == seq![line],
{
    let body = without_newline(line.prefix);
    reveal_strlit("+");
    reveal_strlit("+++");
    reveal_strlit("-");
    reveal_strlit("---");
    reveal_strlit(" ");
    lemma_sign(line, "+");
    lemma_sign(line, "-");
    lemma_sign(line, " ");
    lemma_sign(line, "+++");
    lemma_sign(line, "---");
}

proof fn lemma_sign(line: LineModel, sign: &str)
    requires
        is_plain(sign),
        forall|i: int| 0 <= i < sign@.len() ==> #[trigger] sign@[i] == sign@[0],
    ensures
        has_prefix(without_newline(line.prefix), lit(sign)) <==> line.prefix.len() >= sign@.len()
            && forall|i: int|
            0 <= i < sign@.len() ==> #[trigger] line.prefix[i] == sign@[0] as u8,
{
    let body = without_newline(line.prefix);
    let needle = lit(sign);
    lemma_plain(body, sign);
    super::wording::lemma_letters(body, sign);
    assert forall|i: int| 0 <= i < needle.len() implies #[trigger] needle[i] == sign@[0] as u8
        && needle[i] != 10 by {
        assert(sign@[i] == sign@[0]);
    }
    if has_prefix(body, needle) {
        assert forall|i: int| 0 <= i < sign@.len() implies #[trigger] line.prefix[i] == sign@[0]
            as u8 by {
            assert(body.subrange(0, needle.len() as int)[i] == body[i]);
            assert(body[i] == line.prefix[i]);
        }
    }
    if line.prefix.len() >= sign@.len() && forall|i: int|
        0 <= i < sign@.len() ==> #[trigger] line.prefix[i] == sign@[0] as u8 {
        assert(line.prefix[sign@.len() - 1] == sign@[0] as u8);
        assert(needle[needle.len() - 1] != 10);
        assert(body.len() >= sign@.len());
        assert(body.subrange(0, needle.len() as int) =~= needle);
    }
}

/// Raw output that is at hand and fits is given up only for a shorter one, which saves the bytes
/// and the share that the policy asks for. What is shown is one of the two.
pub proof fn lemma_raw_output_is_preferred(raw: Seq<u8>, reduced: Seq<u8>, policy: OutputPolicy)
    ensures
        chosen_output(None, reduced, policy) == reduced,
        raw.len() > policy.max_output_bytes ==> chosen_output(Some(raw), reduced, policy)
            == reduced,
        raw.len() <= policy.max_output_bytes && reduced.len() >= raw.len() ==> chosen_output(
            Some(raw),
            reduced,
            policy,
        ) == raw,
        raw.len() <= policy.max_output_bytes && raw.len() - reduced.len()
            < policy.min_savings_bytes ==> chosen_output(Some(raw), reduced, policy) == raw,
        raw.len() <= policy.max_output_bytes && (raw.len() - reduced.len()) * 10_000 < raw.len()
            * policy.min_savings_basis_points ==> chosen_output(Some(raw), reduced, policy) == raw,
        raw.len() > reduced.len() && raw.len() - reduced.len() >= policy.min_savings_bytes && (
        raw.len() - reduced.len()) * 10_000 >= raw.len() * policy.min_savings_basis_points
            ==> chosen_output(Some(raw), reduced, policy) == reduced,
{
}

/// The two ends of some bytes are as long as asked, or all of them, and stand where they stood.
pub proof fn lemma_ends_of_bytes(value: Seq<u8>, limit: nat)
    ensures
        value.len() <= limit ==> first_bytes(value, limit) == value && last_bytes(value, limit)
            == value,
        value.len() > limit ==> first_bytes(value, limit) == value.take(limit as int)
            && last_bytes(value, limit) == value.skip(value.len() - limit),
{
    if value.len() <= limit {
        assert(first_bytes(value, limit) =~= value);
        assert(last_bytes(value, limit) =~= value);
    } else {
        assert(first_bytes(value, limit) =~= value.take(limit as int));
        assert(last_bytes(value, limit) =~= value.skip(value.len() - limit));
    }
}

/// A line that fits is shown whole; any line fits when it is shown.
pub proof fn lemma_shown_lines_fit(line: LineModel, limit: nat, two_sided: bool)
    ensures
        line.total_bytes <= limit ==> rendered_line(line, limit, two_sided) == line.prefix,
        line.total_bytes > limit ==> rendered_line(line, limit, two_sided).len() <= limit,
{
}

/// The progress that Cargo prints before it runs tests is left out, unless the line tells of a
/// problem or of a result.
pub proof fn lemma_cargo_progress_is_left_out(line: Seq<u8>)
    ensures
        !cargo_test_line_counts(line) <==> {
            &&& opens_exactly(line, "Compiling ") || opens_exactly(line, "Checking ")
                || opens_exactly(line, "Fresh ") || opens_exactly(line, "Downloaded ")
                || opens_exactly(line, "Downloading ")
            &&& !(mentions(line, "error") || mentions(line, "failed") || mentions(line, "failure")
                || mentions(line, "warning") || mentions(line, "panic") || mentions(
                line,
                "test result",
            ))
        },
{
    let body = super::classify::trimmed_body(line);
    reveal_strlit("Compiling ");
    reveal_strlit("Checking ");
    reveal_strlit("Fresh ");
    reveal_strlit("Downloaded ");
    reveal_strlit("Downloading ");
    reveal_strlit("error");
    reveal_strlit("failed");
    reveal_strlit("failure");
    reveal_strlit("warning");
    reveal_strlit("panic");
    reveal_strlit("test result");
    lemma_plain(line, "Compiling ");
    lemma_plain(line, "Checking ");
    lemma_plain(line, "Fresh ");
    lemma_plain(line, "Downloaded ");
    lemma_plain(line, "Downloading ");
    lemma_plain(line, "error");
    lemma_plain(line, "failed");
    lemma_plain(line, "failure");
    lemma_plain(line, "warning");
    lemma_plain(line, "panic");
    lemma_plain(line, "test result");
    let progress = seq!["Compiling ", "Checking ", "Fresh ", "Downloaded ", "Downloading "];
    let problems = seq!["error", "failed", "failure", "warning", "panic", "test result"];
    assert(progress[0] == "Compiling " && progress[1] == "Checking " && progress[2] == "Fresh "
        && progress[3] == "Downloaded " && progress[4] == "Downloading ");
    assert(problems[0] == "error" && problems[1] == "failed" && problems[2] == "failure"
        && problems[3] == "warning" && problems[4] == "panic" && problems[5] == "test result");
    if has_any_prefix(body, progress) {
        let i = choose|i: int|
            0 <= i < progress.len() && has_prefix(body, lit(#[trigger] progress[i]));
        assert(i == 0 || i == 1 || i == 2 || i == 3 || i == 4);
    }
    if has_any_infix_folded(body, problems) {
        let i = choose|i: int|
            0 <= i < problems.len() && has_infix_folded(body, lit(#[trigger] problems[i]));
        assert(i == 0 || i == 1 || i == 2 || i == 3 || i == 4 || i == 5);
    }
}

} // verus!
