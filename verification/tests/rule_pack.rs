use yarp::rule_pack::model::{
    Action, CommandMatcher, LinePattern, OutputPolicy, PatternCase, PatternKind, PatternTrim,
    Reducer, Rule, Transform,
};
use yarp::rule_pack::index::{ProgramEntry, RuleRecord};
use yarp::rule_pack::sections::validate_index;
use yarp::rule_pack::validation::{
    MAX_SOURCE_FILE_BYTES, validate_pattern, validate_rule, validate_rules,
};

fn matcher(program: &str, prefix: &[&str]) -> CommandMatcher {
    CommandMatcher {
        program: vec![program.to_owned()],
        argv_prefix: prefix.iter().map(ToString::to_string).collect(),
        argv_contains_all: Vec::new(),
    }
}

fn arguments(values: &[&str]) -> Vec<String> {
    values.iter().map(ToString::to_string).collect()
}

#[test]
fn skips_reviewed_program_level_options() {
    assert!(matcher("git", &["diff"]).matches(&arguments(&[
        "git",
        "-C",
        "/repo",
        "--no-pager",
        "diff",
        "--check"
    ])));
    assert!(matcher("pnpm", &["test"]).matches(&arguments(&["pnpm", "-C", "frontend", "test"])));
    assert!(matcher("pnpm", &["lint"]).matches(&arguments(&[
        "pnpm", "--filter", "web", "-r", "--silent", "lint"
    ])));
    assert!(matcher("npm", &["run", "test"]).matches(&arguments(&[
        "npm",
        "--workspaces",
        "run",
        "test"
    ])));
    assert!(matcher("cargo", &["test"]).matches(&arguments(&["cargo", "+nightly", "test"])));
}

#[test]
fn recognizes_reviewed_option_assignment_forms() {
    let long = CommandMatcher {
        program: vec!["gh".to_owned()],
        argv_prefix: vec!["pr".to_owned(), "view".to_owned()],
        argv_contains_all: vec!["--json".to_owned()],
    };
    assert!(long.matches(&arguments(&["gh", "pr", "view", "--json=number,title"])));

    let short = CommandMatcher {
        program: vec!["kubectl".to_owned()],
        argv_prefix: Vec::new(),
        argv_contains_all: vec!["-o".to_owned()],
    };
    assert!(short.matches(&arguments(&["kubectl", "get", "pods", "-ojson"])));

    let bundled = CommandMatcher {
        program: vec!["git".to_owned()],
        argv_prefix: vec!["status".to_owned()],
        argv_contains_all: vec!["-z".to_owned()],
    };
    assert!(bundled.matches(&arguments(&["git", "status", "-sbz"])));
}

#[test]
fn does_not_skip_unknown_options_or_missing_values() {
    assert!(!matcher("git", &["diff"]).matches(&arguments(&["git", "--unknown", "diff"])));
    assert!(!matcher("git", &["diff"]).matches(&arguments(&["git", "-C"])));
}

#[test]
fn an_empty_command_line_matches_nothing() {
    assert!(!matcher("git", &[]).matches(&arguments(&[])));
}

fn policy() -> OutputPolicy {
    OutputPolicy {
        max_line_bytes: 16_384,
        max_output_bytes: 32_768,
        min_savings_bytes: 120,
        min_savings_basis_points: 1_000,
    }
}

fn rule(id: &str, prefix: &[&str]) -> Rule {
    Rule {
        id: id.to_owned(),
        matcher: CommandMatcher {
            program: vec!["tool".to_owned()],
            argv_prefix: prefix.iter().map(ToString::to_string).collect(),
            argv_contains_all: Vec::new(),
        },
        action: Action::Reduce,
        transform: None,
        reducer: Some(Reducer::ListSummary),
        success: Some(policy()),
        failure: Some(policy()),
    }
}

#[test]
fn rejects_overlapping_reduction_rules() {
    let error = validate_rules(&[rule("one", &["test"]), rule("two", &["test", "unit"])])
        .expect_err("overlap");
    assert!(error.contains("same command"));
}

#[test]
fn accepts_disjoint_prefixes_and_passthrough_guards() {
    let mut guard = rule("guard", &["test"]);
    guard.action = Action::Passthrough;
    guard.matcher.argv_contains_all = vec!["--json".to_owned()];
    guard.reducer = None;
    guard.transform = None;
    guard.success = None;
    guard.failure = None;
    validate_rules(&[guard, rule("build", &["build"]), rule("test", &["test"])])
        .expect("valid rules");
}

#[test]
fn validates_transform_rule_contracts() {
    let mut transform = rule("transform", &[]);
    transform.action = Action::Transform;
    transform.transform = Some(Transform::LinePreserving);
    transform.reducer = None;
    transform.success = None;
    transform.failure = None;
    validate_rule(&transform).expect("valid transform");

    transform.reducer = Some(Reducer::ListSummary);
    let error = validate_rule(&transform).expect_err("transform reducer conflict");
    assert!(error.contains("must not define reducer"));
}

#[test]
fn rejects_policies_that_cannot_fit_mandatory_evidence() {
    let mut undersized = rule("undersized", &["run"]);
    undersized.success.as_mut().expect("success").max_output_bytes = 703;
    let error = validate_rule(&undersized).expect_err("mandatory evidence budget");
    assert!(error.contains("between 704"));
}

#[test]
fn rejects_rules_above_the_aggregate_memory_limit() {
    let mut oversized = rule("oversized", &["run"]);
    let policy = oversized.success.as_mut().expect("success policy");
    policy.max_output_bytes = 4_194_304;
    policy.max_line_bytes = 1_048_576;
    oversized.failure = oversized.success;
    let error = validate_rule(&oversized).expect_err("memory limit");
    assert!(error.contains("per stream"));
}

#[test]
fn validates_line_patterns() {
    let pattern = LinePattern {
        kind: PatternKind::Prefix,
        value: "Compiling ".to_owned(),
        case: PatternCase::Sensitive,
        trim: PatternTrim::Start,
    };
    validate_pattern(&pattern).expect("valid pattern");
}

#[test]
fn rejects_oversized_indexed_records_before_allocation() {
    let length = u32::try_from(MAX_SOURCE_FILE_BYTES + 1).expect("record length");
    let rules = [RuleRecord {
        id: "tests/run".to_owned(),
        offset: 0,
        length,
        digest: [0_u8; 32],
    }];
    let programs = [ProgramEntry {
        program: "tool".to_owned(),
        candidates: vec![0],
    }];
    assert!(
        validate_index(&rules, &programs, u64::from(length))
            .expect_err("oversized record")
            .contains("out of bounds")
    );
}
