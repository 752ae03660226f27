use std::collections::VecDeque;

use yarp::reducers::bounded::{LineAccumulator, LineView, ShortRaw, render_line};
use yarp::reducers::evidence::EvidenceClass;
use yarp::reducers::filter::{
    AnsiStripper, cargo_test_keeps, line_filter_keeps, pattern_matches,
};
use yarp::reducers::git_diff::GitDiffState;
use yarp::reducers::{StreamReducer, build_output, diff, list, log, reduce_bytes, status};
use yarp::rule_pack::validation::stream_memory_bound;
use yarp::rule_pack::model::{
    Action, CommandMatcher, LinePattern, OutputPolicy, PatternCase, PatternKind, PatternTrim,
    Reducer, Rule,
};

fn line_policy() -> OutputPolicy {
    OutputPolicy {
        max_line_bytes: 256,
        max_output_bytes: 1_024,
        min_savings_bytes: 8,
        min_savings_basis_points: 1_000,
    }
}

#[test]
fn preserves_the_ending_after_a_truncated_line() {
    let mut accumulator = LineAccumulator::new(256, 0);
    for byte in b"a".repeat(300).into_iter().chain([b'\n']) {
        accumulator.observe_source(byte);
        accumulator.push_output(byte);
    }
    let line = accumulator.take();
    assert_eq!(line.line_ending, b"\n");
    assert!(render_line(&line, 256, false).0.ends_with(b"]\n"));
}

#[test]
fn short_raw_requires_both_savings_gates() {
    let mut raw = ShortRaw::new(line_policy(), line_policy());
    raw.push(b"short\n");
    assert_eq!(raw.choose_output(b"tiny\n".to_vec(), line_policy()), b"short\n");

    let mut strict = line_policy();
    strict.min_savings_basis_points = 9_000;
    let mut raw = ShortRaw::new(strict, strict);
    raw.push(b"1234567890");
    assert_eq!(raw.choose_output(b"123456".to_vec(), strict), b"1234567890");

    let input = vec![b'x'; line_policy().max_output_bytes + 1];
    let mut raw = ShortRaw::new(line_policy(), line_policy());
    raw.push(&input);
    assert_eq!(raw.choose_output(b"reduced".to_vec(), line_policy()), b"reduced");
}

#[test]
fn artifact_names_do_not_become_build_diagnostics() {
    assert_eq!(
        build_output::classify("ℹ dist/errors-hash.js 1.25 kB | gzip: 0.52 kB\n".as_bytes()),
        EvidenceClass::Example
    );
    assert_eq!(
        build_output::classify("19:21:07   ├─ /graph/payment-failure/index.html (+3ms)\n".as_bytes()),
        EvidenceClass::Example
    );
    assert_eq!(
        build_output::classify(b"      \"code\": \"space.variable.ENRICH_MAX_ERROR_RATE\",\n"),
        EvidenceClass::Example
    );
    assert_eq!(
        build_output::classify(b"+        throw new Error(`compiled hook runtime is missing`);\n"),
        EvidenceClass::Example
    );
    assert_eq!(
        build_output::classify(b"src/main.ts:2:5 - error TS2322: incompatible type\n"),
        EvidenceClass::Diagnostic
    );
    assert_eq!(
        build_output::classify(
            "\u{2009}ELIFECYCLE\u{2009} Command failed with exit code 1.\n".as_bytes()
        ),
        EvidenceClass::Outcome
    );
    assert_eq!(
        build_output::classify(b"error: build failed\n"),
        EvidenceClass::Outcome
    );
}

#[test]
fn unchanged_source_terms_are_not_diff_diagnostics() {
    assert_eq!(
        diff::classify(b"     const error = event.error;\n"),
        EvidenceClass::Noise
    );
    assert_eq!(
        diff::classify(b"+    throw new Error(\"boom\");\n"),
        EvidenceClass::Example
    );
}

fn view(value: &[u8], truncated: bool) -> LineView {
    LineView {
        prefix: value.to_vec(),
        tail: VecDeque::from(value.to_vec()),
        line_ending: if value.ends_with(b"\n") {
            b"\n".to_vec()
        } else {
            Vec::new()
        },
        total_bytes: value.len() + usize::from(truncated),
        truncated,
    }
}

#[test]
fn strips_chunked_ansi_sequences() {
    let mut stripper = AnsiStripper::new();
    let output = [b"before \x1b[3".as_slice(), b"1mred\x1b[0m after\n"]
        .into_iter()
        .flatten()
        .filter_map(|byte| stripper.push_byte(*byte))
        .collect::<Vec<_>>();
    assert_eq!(output, b"before red after\n");
}

#[test]
fn matches_literal_patterns_without_regex() {
    let pattern = LinePattern {
        kind: PatternKind::Prefix,
        value: "warning:".to_owned(),
        case: PatternCase::AsciiInsensitive,
        trim: PatternTrim::Start,
    };
    assert!(pattern_matches(
        &pattern,
        &view(b"  WARNING: detail\n", false)
    ));
}

#[test]
fn uncertain_truncated_keep_patterns_fail_open() {
    let keep = [LinePattern {
        kind: PatternKind::Suffix,
        value: "summary".to_owned(),
        case: PatternCase::Sensitive,
        trim: PatternTrim::Untrimmed,
    }];
    assert!(line_filter_keeps(&view(b"long prefix", true), &[], &keep));
}

#[test]
fn keeps_three_context_lines_around_changes() {
    let mut state = GitDiffState::default();
    let mut kept = Vec::new();
    let mut omitted = Vec::new();
    for value in [" a\n", " b\n", " c\n", " d\n", "+change\n", " e\n"] {
        state.push(view(value.as_bytes(), false), &mut kept, &mut omitted);
    }
    state.finish(&mut kept);
    assert_eq!(omitted.len(), 1);
    assert_eq!(kept.len(), 5);
    assert_eq!(kept[0].prefix, b" b\n");
}

#[test]
fn list_item_words_do_not_become_diagnostics() {
    assert_eq!(
        list::classify(b"abc123 fix: preserve error details after failures\n"),
        EvidenceClass::Example
    );
    assert_eq!(
        list::classify(b"completed\tfailure\tCI\tmain\n"),
        EvidenceClass::Outcome
    );
    assert_eq!(
        list::classify(b"fatal: bad revision\n"),
        EvidenceClass::Diagnostic
    );
}

#[test]
fn source_code_terms_are_not_log_diagnostics() {
    assert_eq!(
        log::classify(b"+void main().catch((error: unknown) => {\n"),
        EvidenceClass::Example
    );
    assert_eq!(
        log::classify(b"2026-08-01T10:00:00Z ERROR request failed\n"),
        EvidenceClass::Diagnostic
    );
    assert_eq!(
        log::classify(b"2026-08-01T10:00:00Z level=warning message=retrying\n"),
        EvidenceClass::Diagnostic
    );
}

#[test]
fn status_item_names_do_not_become_diagnostics() {
    assert_eq!(
        status::classify(b"M  src/runtime/errors.ts\n"),
        EvidenceClass::Example
    );
    assert_eq!(
        status::classify(
            b"check\tstep\t2026-08-01T00:00:00Z ##[error]Process completed with exit code 1.\n"
        ),
        EvidenceClass::Outcome
    );
    assert_eq!(
        status::classify(b"service[1]: ERROR request failed\n"),
        EvidenceClass::Diagnostic
    );
}

#[test]
fn successful_test_names_and_fixture_values_are_not_diagnostics() {
    assert_eq!(
        yarp::reducers::test::classify(b"test handles_error_without_failure ... ok\n"),
        EvidenceClass::Noise
    );
    assert_eq!(
        yarp::reducers::test::classify(b"      \"code\": \"space.variable.ENRICH_MAX_ERROR_RATE\",\n"),
        EvidenceClass::Example
    );
    assert_eq!(
        yarp::reducers::test::classify(b"E       AssertionError: assert 1 == 2\n"),
        EvidenceClass::Diagnostic
    );
    assert_eq!(
        yarp::reducers::test::classify(b"error[E0308]: type mismatch\n"),
        EvidenceClass::Diagnostic
    );
}

fn policy(max: usize, savings: usize) -> OutputPolicy {
    OutputPolicy {
        max_line_bytes: 256,
        max_output_bytes: max,
        min_savings_bytes: savings,
        min_savings_basis_points: 1_000,
    }
}

fn rule(reducer: Reducer) -> Rule {
    Rule {
        id: "test/rule".to_owned(),
        matcher: CommandMatcher {
            program: vec!["test".to_owned()],
            argv_prefix: Vec::new(),
            argv_contains_all: Vec::new(),
        },
        action: Action::Reduce,
        transform: None,
        reducer: Some(reducer),
        success: Some(policy(1_024, 8)),
        failure: Some(policy(2_048, 8)),
    }
}

fn numbered_lines(prefix: &str, count: usize) -> String {
    let mut output = String::new();
    for index in 0..count {
        output.push_str(&format!("{prefix} {index}: repeated output\n"));
    }
    output
}

#[test]
fn uses_real_exit_status_policy() {
    let input = numbered_lines("line", 200);
    let success = reduce_bytes(&rule(Reducer::ListSummary), input.as_bytes(), true)
        .expect("success reduction");
    let failure = reduce_bytes(&rule(Reducer::ListSummary), input.as_bytes(), false)
        .expect("failure reduction");
    assert!(
        failure.len() > success.len(),
        "success={} failure={}",
        success.len(),
        failure.len()
    );
}

#[test]
fn keeps_tool_session_identifiers_needed_for_follow_up() {
    let input = format!(
        "Chunk ID: abc\nProcess running with session ID 12345\n{}",
        numbered_lines("path", 2_000)
    );
    let output =
        reduce_bytes(&rule(Reducer::ListSummary), input.as_bytes(), true).expect("reduction");
    let text = String::from_utf8(output).expect("UTF-8");
    assert!(text.contains("Process running with session ID 12345"));
}

#[test]
fn rejects_rules_above_the_stream_memory_limit() {
    let mut oversized = rule(Reducer::ListSummary);
    let policy = OutputPolicy {
        max_line_bytes: 1_048_576,
        max_output_bytes: 4_194_304,
        min_savings_bytes: 1_048_576,
        min_savings_basis_points: 1_000,
    };
    oversized.success = Some(policy);
    oversized.failure = Some(policy);
    let error = StreamReducer::new(&oversized).err().expect("memory limit");
    assert!(error.contains("per stream"));
}

#[test]
fn output_is_independent_of_chunk_boundaries() {
    let input = numbered_lines("path:1:match", 400);
    let rule = rule(Reducer::SearchSummary);
    let expected = reduce_bytes(&rule, input.as_bytes(), true).expect("reduction");
    for chunk_size in 1..32 {
        let mut reducer = StreamReducer::new(&rule).expect("reducer");
        for chunk in input.as_bytes().chunks(chunk_size) {
            reducer.push(chunk);
        }
        assert_eq!(
            reducer.finish(true, None),
            expected,
            "chunk size {chunk_size}"
        );
    }
}

#[test]
fn test_summary_keeps_failures_and_drops_progress() {
    let input = format!(
        "{}error: build failed\ntest result: FAILED\n",
        "test routine ... ok\n".repeat(1_000)
    );
    let output =
        reduce_bytes(&rule(Reducer::TestSummary), input.as_bytes(), false).expect("reduction");
    let text = String::from_utf8(output).expect("UTF-8");
    assert!(!text.contains("test routine"));
    assert!(text.contains("error: build failed"));
    assert!(text.contains("test result: FAILED"));
}

#[test]
fn keeps_registered_diagnostics_from_the_tail_of_a_bounded_long_line() {
    let mut compact = rule(Reducer::SearchSummary);
    compact.success.as_mut().expect("policy").max_line_bytes = 256;
    compact.failure.as_mut().expect("policy").max_line_bytes = 256;
    let input = format!("{} warning: tail evidence\n", "x".repeat(1_024));
    let output = reduce_bytes(&compact, input.as_bytes(), true).expect("reduction");
    assert!(String::from_utf8_lossy(&output).contains("warning"));
}

#[test]
fn records_registered_diagnostics_from_the_middle_of_an_oversized_line() {
    let mut compact = rule(Reducer::SearchSummary);
    compact.success.as_mut().expect("policy").max_line_bytes = 256;
    compact.failure.as_mut().expect("policy").max_line_bytes = 256;
    let input = format!(
        "{} warning: middle evidence {}\n",
        "x".repeat(1_024),
        "y".repeat(1_024)
    );
    let output = reduce_bytes(&compact, input.as_bytes(), true).expect("reduction");
    assert!(String::from_utf8_lossy(&output).contains("source_terms=warning"));
}

#[test]
fn applies_the_line_limit_before_stripping_ansi() {
    let mut input = b"\x1b]".to_vec();
    input.extend(std::iter::repeat_n(b'x', 400));
    input.extend_from_slice(b"\x07visible\n");
    input.extend_from_slice(numbered_lines("tail", 200).as_bytes());
    let rule = rule(Reducer::LineFilter {
        strip_ansi: true,
        drop: Vec::new(),
        keep: Vec::new(),
    });
    let output = reduce_bytes(&rule, &input, true).expect("reduction");
    assert!(
        String::from_utf8_lossy(&output).contains("line truncated"),
        "raw source length must control line truncation"
    );
}

#[test]
fn unknown_binary_bytes_are_processed_without_utf8() {
    let mut input = vec![0xff; 4_096];
    input.push(b'\n');
    let output = reduce_bytes(&rule(Reducer::SearchSummary), &input, true).expect("reduction");
    assert!(output.len() <= 1_024);
}

fn every_reducer() -> Vec<Reducer> {
    vec![
        Reducer::TestSummary,
        Reducer::BuildSummary,
        Reducer::DiffSummary,
        Reducer::SearchSummary,
        Reducer::ListSummary,
        Reducer::LogSummary,
        Reducer::StatusSummary,
    ]
}

#[test]
fn every_builtin_reducer_obeys_both_hard_output_budgets() {
    let input = numbered_lines("diagnostic line", 4_000);
    for reducer in every_reducer() {
        let rule = rule(reducer);
        assert!(
            stream_memory_bound(&rule).expect("memory bound") < 4 * 1024 * 1024,
            "{rule:?} exceeds the per-stream memory target"
        );
        for success in [true, false] {
            let output = reduce_bytes(&rule, input.as_bytes(), success).expect("reduction");
            let policy = if success {
                rule.success.expect("success policy")
            } else {
                rule.failure.expect("failure policy")
            };
            assert!(
                output.len() <= policy.max_output_bytes,
                "{rule:?} emitted {} bytes with a {} byte budget",
                output.len(),
                policy.max_output_bytes
            );
        }
    }
}

#[test]
fn every_builtin_reducer_keeps_short_output_exact() {
    let input = b"one useful line\n";
    for reducer in every_reducer() {
        let output = reduce_bytes(&rule(reducer), input, true).expect("reduction");
        assert_eq!(output, input);
    }
}

#[test]
fn output_shorter_than_the_least_saving_stays_exact() {
    let input = numbered_lines("short", 3);
    let mut strict = rule(Reducer::LogSummary);
    strict.success = Some(policy(1_024, input.len() + 1));
    assert_eq!(
        reduce_bytes(&strict, input.as_bytes(), true).expect("reduced"),
        input.as_bytes()
    );
}

#[test]
fn only_a_complete_line_has_full_bytes() {
    let mut accumulator = LineAccumulator::new(4, 0);
    for byte in *b"abc\n" {
        accumulator.observe_source(byte);
        accumulator.push_output(byte);
    }
    assert_eq!(accumulator.take().full_bytes(), Some(&b"abc\n"[..]));
    for byte in *b"abcdef\n" {
        accumulator.observe_source(byte);
        accumulator.push_output(byte);
    }
    assert_eq!(accumulator.take().full_bytes(), None);
}

#[test]
fn cargo_progress_is_dropped_unless_it_reports_trouble() {
    let mut accumulator = LineAccumulator::new(256, 0);
    let mut kept = Vec::new();
    for text in [
        "   Compiling yarp v0.1.0\n",
        "   Compiling error-chain v0.1.0\n",
        "running 3 tests\n",
    ] {
        for byte in text.bytes() {
            accumulator.observe_source(byte);
            accumulator.push_output(byte);
        }
        kept.push(cargo_test_keeps(&accumulator.take()));
    }
    assert_eq!(kept, vec![false, true, true]);
}
