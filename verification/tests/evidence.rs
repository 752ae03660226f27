use std::collections::VecDeque;

use yarp::reducers::bounded::LineView;
use yarp::reducers::evidence::{
    EvidenceClass, EvidenceCollector, RecoveryMarker,
};
use yarp::rule_pack::model::OutputPolicy;

fn line(value: &str) -> LineView {
    LineView {
        prefix: value.as_bytes().to_vec(),
        tail: VecDeque::from(value.as_bytes().to_vec()),
        line_ending: if value.ends_with("\r\n") {
            b"\r\n".to_vec()
        } else if value.ends_with('\n') {
            b"\n".to_vec()
        } else {
            Vec::new()
        },
        total_bytes: value.len(),
        truncated: false,
    }
}

fn policy() -> OutputPolicy {
    OutputPolicy {
        max_line_bytes: 256,
        max_output_bytes: 4_096,
        min_savings_bytes: 8,
        min_savings_basis_points: 1_000,
    }
}

#[test]
fn renders_typed_sections_and_copyable_recovery() {
    let mut collector = EvidenceCollector::new("test", policy());
    collector.observe(1, &line("test one ... ok\r\n"), EvidenceClass::Noise);
    collector.observe(2, &line("error: failed\n"), EvidenceClass::Diagnostic);
    collector.observe(3, &line("test result: FAILED\n"), EvidenceClass::Outcome);
    let output = String::from_utf8(collector.render(
        Some(RecoveryMarker {
            archive_ref: "yr_0123456789abcdef0123456789abcdef",
            source: "stderr",
            completeness: "complete",
        }),
        [false; 5],
        false,
    ))
    .expect("UTF-8");
    assert!(output.contains("== outcome ==\r\n"));
    assert!(output.contains("L2: error: failed"));
    assert!(output.contains("yarp search yr_0123456789abcdef0123456789abcdef"));
}

#[test]
fn changed_output_keeps_recovery_even_when_no_line_is_omitted() {
    let mut collector = EvidenceCollector::new("test", policy());
    collector.observe(1, &line("error: failed\n"), EvidenceClass::Diagnostic);
    let output = String::from_utf8(collector.render(
        Some(RecoveryMarker {
            archive_ref: "yr_0123456789abcdef0123456789abcdef",
            source: "stderr",
            completeness: "complete",
        }),
        [false; 5],
        false,
    ))
    .expect("UTF-8");
    assert!(
        output
            .contains("[yarp: exact output archived; ref=yr_0123456789abcdef0123456789abcdef")
    );
    assert!(
        output
            .contains("Search omitted output: yarp search yr_0123456789abcdef0123456789abcdef")
    );
}

#[test]
fn compact_output_keeps_the_complete_recovery_instruction() {
    let mut compact = policy();
    compact.max_output_bytes = 704;
    let mut collector = EvidenceCollector::new("search", compact);
    for index in 0..1_000 {
        collector.observe(
            index + 1,
            &line(&format!("src/file{}.rs:{index}: match\n", index % 40)),
            EvidenceClass::Example,
        );
    }
    let output = collector.render(
        Some(RecoveryMarker {
            archive_ref: "yr_0123456789abcdef0123456789abcdef",
            source: "result_text",
            completeness: "unknown",
        }),
        [false; 5],
        true,
    );
    let text = String::from_utf8_lossy(&output);
    assert!(output.len() <= 512);
    assert!(text.contains(
        "Search omitted output: yarp search yr_0123456789abcdef0123456789abcdef 'term|alternate'"
    ));
    assert!(text.contains("L1: src/file0.rs:0: match"));
}

#[test]
fn source_term_samples_disable_the_compact_cap_without_tracker_matches() {
    let mut compact = policy();
    compact.max_output_bytes = 704;
    let mut collector = EvidenceCollector::new("test", compact);
    for (index, value) in [
        "failure from source text",
        "panic from source text",
        "error from source text",
        "warning from source text",
        "test result from source text",
    ]
    .into_iter()
    .enumerate()
    {
        collector.observe(
            u64::try_from(index + 1).expect("line"),
            &line(&format!("prefix {value} with enough surrounding detail\n")),
            EvidenceClass::Example,
        );
    }
    let output = String::from_utf8_lossy(&collector.render(
        Some(RecoveryMarker {
            archive_ref: "yr_0123456789abcdef0123456789abcdef",
            source: "result_text",
            completeness: "complete",
        }),
        [false; 5],
        true,
    ))
    .to_ascii_lowercase();
    for term in ["failure", "panic", "error", "warning", "test result"] {
        assert!(output.contains(term), "missing {term}: {output}");
    }
    assert!(output.len() <= 704);
}

#[test]
fn keeps_one_source_line_for_every_registered_diagnostic_category() {
    let mut compact = policy();
    compact.max_output_bytes = 704;
    let mut collector = EvidenceCollector::new("test", compact);
    for index in 0..100 {
        collector.observe(
            index + 1,
            &line(&format!("error: repeated {index}\n")),
            EvidenceClass::Diagnostic,
        );
    }
    for (offset, value) in [
        "warning: late\n",
        "panic: late\n",
        "failure: late\n",
        "test result: FAILED\n",
    ]
    .into_iter()
    .enumerate()
    {
        collector.observe(
            u64::try_from(101 + offset).expect("line"),
            &line(value),
            EvidenceClass::Diagnostic,
        );
    }
    let output = String::from_utf8_lossy(&collector.render(
        Some(RecoveryMarker {
            archive_ref: "yr_0123456789abcdef0123456789abcdef",
            source: "result_text",
            completeness: "complete",
        }),
        [true; 5],
        true,
    ))
    .to_ascii_lowercase();
    for term in ["error", "warning", "panic", "failure", "test result"] {
        assert!(output.contains(term), "missing {term}: {output}");
    }
    assert!(output.contains("yarp search yr_0123456789abcdef0123456789abcdef"));
    assert!(output.len() <= 704);
}

#[test]
fn collapses_exact_repetition_with_a_bounded_counter() {
    let mut collector = EvidenceCollector::new("list", policy());
    for index in 0..1_000 {
        collector.observe(index + 1, &line("same record\n"), EvidenceClass::Example);
    }
    let output = String::from_utf8(collector.render(None, [false; 5], true)).expect("UTF-8");
    assert!(output.contains("repeated 1000 times"));
    assert_eq!(output.matches("same record").count(), 1);
}

#[test]
fn ranks_outcomes_before_diagnostics_and_examples() {
    let mut collector = EvidenceCollector::new("test", policy());
    collector.observe(1, &line("example row\n"), EvidenceClass::Example);
    collector.observe(2, &line("error: failed\n"), EvidenceClass::Diagnostic);
    collector.observe(3, &line("test result: FAILED\n"), EvidenceClass::Outcome);
    let output = String::from_utf8(collector.render(None, [false; 5], false)).expect("UTF-8");
    assert!(
        output.find("== outcome ==").expect("outcome")
            < output.find("== diagnostics ==").expect("diagnostics")
    );
    assert!(
        output.find("== diagnostics ==").expect("diagnostics")
            < output
                .find("== source term samples ==")
                .expect("source term samples")
    );
    assert!(
        output
            .find("== source term samples ==")
            .expect("source term samples")
            < output.find("== examples ==").expect("examples")
    );
}

#[test]
fn prefers_different_search_files() {
    let mut collector = EvidenceCollector::new("search", policy());
    for index in 0..100 {
        collector.observe(
            index + 1,
            &line(&format!("src/one.rs:{index}: match {index}\n")),
            EvidenceClass::Example,
        );
    }
    collector.observe(
        101,
        &line("src/two.rs:1: another match\n"),
        EvidenceClass::Example,
    );
    let output = String::from_utf8(collector.render(None, [false; 5], true)).expect("UTF-8");
    assert!(output.contains("src/one.rs"));
    assert!(output.contains("src/two.rs"));
}

#[test]
fn prefers_different_list_groups() {
    let mut collector = EvidenceCollector::new("list", policy());
    collector.observe(1, &line("group/one\n"), EvidenceClass::Example);
    collector.observe(2, &line("group/two\n"), EvidenceClass::Example);
    collector.observe(3, &line("other/three\n"), EvidenceClass::Example);
    let output = String::from_utf8(collector.render(None, [false; 5], true)).expect("UTF-8");
    assert!(output.contains("group/one"));
    assert!(!output.contains("group/two"));
    assert!(output.contains("other/three"));
}

#[test]
fn collector_memory_is_bounded_by_record_and_byte_budgets() {
    let mut collector = EvidenceCollector::new("list", policy());
    for index in 0..10_000 {
        collector.observe(
            index + 1,
            &line(&format!("record {index}\n")),
            EvidenceClass::Example,
        );
    }
    let output = collector.render(None, [false; 5], true);
    assert!(output.len() <= policy().max_output_bytes);
    assert!(String::from_utf8_lossy(&output).contains("omitted"));
}

#[test]
fn a_quiet_success_is_summarized_in_512_bytes() {
    let mut collector = EvidenceCollector::new("list", policy());
    for number in 0..500 {
        collector.observe(
            number + 1,
            &line(&format!("group{number}/item\r\n")),
            EvidenceClass::Example,
        );
    }
    assert!(collector.render(None, [false; 5], true).len() <= 512);
}
