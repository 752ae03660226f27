use yarp::archive::model::{SourceCompleteness, SourceName, VerifiedSource};
use yarp::result_reducer::{
    ReduceRequest, ReduceResponse, SetupDiagnosticScanner, check_request, run,
};
use yarp::rule_pack::model::{Action, CommandMatcher, OutputPolicy, Reducer, Rule, Transform};
use yarp::rules::registry::{BuiltinPack, Registry};

fn strings(values: &[&str]) -> Vec<String> {
    values.iter().map(ToString::to_string).collect()
}

fn rule_for(id: &str, program: &str, prefix: &[&str], contains: &[&str]) -> Rule {
    Rule {
        id: id.to_owned(),
        matcher: CommandMatcher {
            program: vec![program.to_owned()],
            argv_prefix: strings(prefix),
            argv_contains_all: strings(contains),
        },
        action: Action::Passthrough,
        transform: None,
        reducer: None,
        success: None,
        failure: None,
    }
}

fn reduction(id: &str, program: &str, prefix: &[&str], reducer: Reducer) -> Rule {
    let policy = OutputPolicy {
        max_line_bytes: 16_384,
        max_output_bytes: 32_768,
        min_savings_bytes: 120,
        min_savings_basis_points: 1_000,
    };
    Rule {
        action: Action::Reduce,
        reducer: Some(reducer),
        success: Some(policy),
        failure: Some(policy),
        ..rule_for(id, program, prefix, &[])
    }
}

fn line_preserving(program: &str) -> Rule {
    Rule {
        action: Action::Transform,
        transform: Some(Transform::LinePreserving),
        ..rule_for(program, program, &[], &[])
    }
}

fn builtins() -> Registry {
    Registry::builtins_only(BuiltinPack {
        id: "yarp-builtins".to_owned(),
        source_digest: [0x42; 32],
        rules: vec![
            reduction("cargo/test", "cargo", &["test"], Reducer::TestSummary),
            reduction("rg", "rg", &[], Reducer::SearchSummary),
            rule_for("rg/json", "rg", &[], &["--json"]),
            line_preserving("head"),
            line_preserving("sort"),
        ],
    })
}

fn reduce(request: &ReduceRequest) -> Result<ReduceResponse, String> {
    yarp::result_reducer::reduce(request, &builtins(), &Err("no archive".to_owned()))
}

fn request(command: &str, text: &str) -> ReduceRequest {
    ReduceRequest {
        schema_version: 1,
        command: command.to_owned(),
        text: text.to_owned(),
        is_error: false,
        exit_code: Some(0),
        archive_ref: "yr_0123456789abcdef0123456789abcdef".to_owned(),
        source_completeness: SourceCompleteness::Unknown,
        prefer_archive_source: false,
    }
}

#[test]
fn unsupported_results_fail_open() {
    let response = run(
        &Ok(request("cat secret", "exact\n")),
        &builtins(),
        &Err("no archive".to_owned()),
    )
    .expect("protocol");
    assert!(!response.changed);
}

#[test]
fn reduces_safe_composite_results_and_preserves_uncertain_ones() {
    let mut text = String::new();
    for index in 0..2_000 {
        text.push_str(&format!("src/file{index}.rs:{index}: TODO item\n"));
    }
    let request = ReduceRequest {
        schema_version: 1,
        command: "rg TODO . | sort | head -50".to_owned(),
        text: text.clone(),
        is_error: false,
        exit_code: Some(0),
        archive_ref: "yr_0123456789abcdef0123456789abcdef".to_owned(),
        source_completeness: SourceCompleteness::Unknown,
        prefer_archive_source: false,
    };
    let response = reduce(&request).expect("composite reduction");
    assert!(response.changed);
    assert!(response.content.expect("summary").contains("search"));

    let setup_failure = ReduceRequest {
        schema_version: 1,
        command: "cd /a/very/long/missing/path && cargo test | head -1".to_owned(),
        text: "bash: line 1: cd: /a/very/long/missing/path: No such file or directory\n".to_owned(),
        is_error: true,
        exit_code: Some(1),
        archive_ref: "yr_0123456789abcdef0123456789abcdef".to_owned(),
        source_completeness: SourceCompleteness::Unknown,
        prefer_archive_source: false,
    };
    let response = reduce(&setup_failure).expect("setup failure pass-through");
    assert!(!response.changed);

    let guarded = ReduceRequest {
        command: "rg --json TODO . | jq .".to_owned(),
        ..request
    };
    let response = reduce(&guarded).expect("guarded pass-through");
    assert!(!response.changed);
}

#[test]
fn finds_setup_diagnostics_across_stream_boundaries() {
    let mut scanner = SetupDiagnosticScanner::default();
    scanner.push(b"bash: line 1: c");
    assert!(!scanner.matched);
    scanner.push(b"d: missing: No such file or directory\n");
    assert!(scanner.matched);
}

#[test]
fn reduces_failure_evidence_for_every_supported_composite_shape() {
    let text = format!(
        "{}test result: FAILED\n",
        "test case ... FAILED\n".repeat(1_000)
    );
    for command in [
        "cargo test | head -100",
        "set -o pipefail && cargo test | head -100",
        "cargo test && cargo test",
        "cargo test; cargo test",
        "cargo test || cargo test",
        "cargo test\ncargo test",
        "cargo test 2>&1",
    ] {
        let request = ReduceRequest {
            schema_version: 1,
            command: command.to_owned(),
            text: text.clone(),
            is_error: true,
            exit_code: Some(1),
            archive_ref: "yr_0123456789abcdef0123456789abcdef".to_owned(),
            source_completeness: SourceCompleteness::Unknown,
            prefer_archive_source: false,
        };
        let response = reduce(&request).expect("composite failure reduction");
        assert!(response.changed, "unchanged {command}");
        let content = response.content.expect("summary");
        assert!(content.contains("test result: FAILED"), "{command}");
        assert!(
            content.contains("yarp search yr_0123456789abcdef0123456789abcdef"),
            "{command}"
        );
    }
}

#[test]
fn explicit_exit_code_precedes_generic_error() {
    let request = ReduceRequest {
        schema_version: 1,
        command: "cargo test".to_owned(),
        text: format!("{}test result: ok\n", "test routine ... ok\n".repeat(1_000)),
        is_error: true,
        exit_code: Some(0),
        archive_ref: "yr_0123456789abcdef0123456789abcdef".to_owned(),
        source_completeness: SourceCompleteness::Unknown,
        prefer_archive_source: false,
    };
    let response = reduce(&request).expect("reduction");
    assert!(response.changed);
    assert!(
        response
            .content
            .expect("content")
            .contains("test result: ok")
    );
}

#[test]
fn archived_output_is_reduced_on_request() {
    let body = format!("{}test result: ok\n", "test routine ... ok\n".repeat(1_000));
    let asked = ReduceRequest {
        prefer_archive_source: true,
        ..request("cargo test", "")
    };
    let source = |name: SourceName, media_type: &str| VerifiedSource {
        name,
        completeness: SourceCompleteness::Complete,
        media_type: media_type.to_owned(),
        body: body.clone().into_bytes(),
    };
    let answer = |sources: Result<Vec<VerifiedSource>, String>| {
        yarp::result_reducer::reduce(&asked, &builtins(), &sources)
    };
    let response = answer(Ok(vec![
        source(SourceName::ResultText, "text/plain; charset=utf-8"),
        source(SourceName::SourceOutput, "text/plain; charset=utf-8"),
    ]))
    .expect("reduction");
    assert!(response.changed);
    assert_eq!(response.source, Some(SourceName::SourceOutput));
    assert!(!response.needs_result_text);
    let binary = answer(Ok(vec![source(
        SourceName::SourceOutput,
        "application/octet-stream",
    )]))
    .expect("unchanged");
    assert!(!binary.changed);
    assert_eq!(
        answer(Ok(Vec::new())).expect_err("missing source"),
        "documented complete source_output is unavailable"
    );
    assert_eq!(answer(Err("locked".to_owned())).expect_err("locked"), "locked");
}

#[test]
fn malformed_requests_are_refused() {
    assert!(check_request(&request("cargo test", "")).is_ok());
    let newer = ReduceRequest {
        schema_version: 2,
        ..request("cargo test", "")
    };
    assert_eq!(
        check_request(&newer).expect_err("version"),
        "unsupported result-reducer schema version 2; expected 1"
    );
    let unknown = ReduceRequest {
        archive_ref: "yr_0123456789ABCDEF0123456789abcdef".to_owned(),
        ..request("cargo test", "")
    };
    assert_eq!(
        run(&Ok(unknown), &builtins(), &Err(String::new())).expect_err("reference"),
        "invalid result-reducer archive reference"
    );
    assert_eq!(
        run(&Err("bad frame".to_owned()), &builtins(), &Err(String::new())).expect_err("frame"),
        "bad frame"
    );
}
