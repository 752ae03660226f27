use yarp::archive::verification::{ArchiveStats, VerifyReport};
use yarp::cli::commands::{
    Command, ConfigCommand, UNCHANGED_EXIT, USAGE_EXIT, asks_for_skill, command, config_command,
    stats_lines, verify_exit,
};
use yarp::cli::rewriting::parse_rewrite;
use yarp::cli::running::{parse_archive_key, parse_run};
use yarp::cli::timestamps::{prune_timestamp, utc_milliseconds};
use yarp::rules::{PackRequest, digest_hex};

fn strings(values: &[&str]) -> Vec<String> {
    values.iter().map(ToString::to_string).collect()
}

fn no_packs() -> Result<Vec<PackRequest>, String> {
    Ok(Vec::new())
}

#[test]
fn parses_archived_run_metadata() {
    let arguments = strings(&[
        "--archive-agent",
        "pi",
        "--archive-account",
        "onur",
        "--archive-session",
        "session",
        "--archive-call",
        "call",
        "--",
        "git",
        "status",
    ]);
    let parsed = parse_run(&arguments, no_packs()).expect("parse");
    let key = parsed.key.expect("archive key");
    assert_eq!(key.session.agent, "pi");
    assert_eq!(key.source_call_id, "call");
    assert_eq!(parsed.child, strings(&["git", "status"]));
    assert!(parsed.packs.is_empty());
    assert!(parsed.expected.is_none());
}

#[test]
fn invalid_arguments_return_usage_error() {
    assert_eq!(USAGE_EXIT, 64);
    assert!(matches!(command(&strings(&["rewrite"])), Command::Rewrite));
    assert!(parse_rewrite(&[], &Vec::new(), no_packs()).is_err());
    assert!(matches!(command(&strings(&["unknown"])), Command::Invalid));
    assert!(matches!(command(&strings(&["run", "--"])), Command::Run));
    assert!(parse_run(&strings(&["--"]), no_packs()).is_err());
}

#[test]
fn unsupported_rewrite_fails_open_with_distinct_status() {
    let builtins = yarp::rules::Registry::builtins_only(yarp::rules::BuiltinPack {
        id: "yarp-builtins".to_owned(),
        source_digest: [0; 32],
        rules: Vec::new(),
    });
    let parsed = parse_rewrite(
        &strings(&["cat .env"]),
        &vec![Err("not a path".to_owned())],
        no_packs(),
    )
    .expect("arguments");
    let rewritten =
        yarp::rewrite::rewrite_with_options(&parsed.command, None, &Ok(builtins), &Vec::new());
    assert_eq!(rewritten, Ok(None));
    assert_eq!(UNCHANGED_EXIT, 3);
}

#[test]
fn selected_rules_come_with_their_digest() {
    let digest = digest_hex(&[9; 32]);
    let parsed = parse_run(
        &strings(&[
            "--selected-pack",
            "p",
            "--selected-rule",
            "r/s",
            "--selected-digest",
            &digest,
            "--",
            "tool",
        ]),
        no_packs(),
    )
    .expect("parse");
    let expected = parsed.expected.expect("selection");
    assert_eq!(expected.pack_id, "p");
    assert_eq!(expected.rule_id, "r/s");
    assert_eq!(expected.source_digest, [9; 32]);
    assert!(
        parse_run(
            &strings(&["--selected-pack", "p", "--", "tool"]),
            no_packs()
        )
        .is_err()
    );
    assert!(
        parse_run(
            &strings(&["--archive-agent", "pi", "--", "tool"]),
            no_packs()
        )
        .is_err()
    );
}

#[test]
fn archived_calls_are_named_completely() {
    let key = parse_archive_key(&strings(&[
        "--archive-agent",
        "pi",
        "--archive-account",
        "onur",
        "--archive-session",
        "session",
        "--archive-call",
        "call",
    ]))
    .expect("key");
    assert_eq!(key.session.account, "onur");
    assert_eq!(key.session.started_at_ms, None);
    assert_eq!(key.source_call_id, "call");
    assert!(parse_archive_key(&strings(&["pi", "onur", "session", "call"])).is_err());
    assert!(
        parse_archive_key(&strings(&[
            "--archive-call", "call", "--archive-agent", "pi", "--archive-account", "onur",
            "--archive-session", "session",
        ]))
        .is_err()
    );
    assert!(parse_archive_key(&[]).is_err());
}

#[test]
fn commands_are_told_apart() {
    assert!(matches!(command(&[]), Command::Help | Command::Invalid));
    assert!(matches!(command(&strings(&["--version"])), Command::Version));
    assert!(matches!(command(&strings(&["search", "ref", "x"])), Command::Search));
    assert!(matches!(command(&strings(&["archive", "stats"])), Command::ArchiveStats));
    assert!(matches!(command(&strings(&["archive", "broker"])), Command::ArchiveBroker));
    assert!(matches!(command(&strings(&["archive", "nothing"])), Command::Invalid));
    assert!(matches!(config_command(&strings(&["path"])), ConfigCommand::Path));
    assert!(matches!(
        config_command(&strings(&["get", "output.cap_bytes"])),
        ConfigCommand::GetField
    ));
    assert!(matches!(config_command(&strings(&["bad"])), ConfigCommand::Invalid));
    assert!(asks_for_skill(&strings(&["yarp", "--skill"])));
    assert!(!asks_for_skill(&strings(&["yarp", "run", "--skill"])));
}

#[test]
fn prune_times_are_read_as_utc_milliseconds() {
    assert_eq!(prune_timestamp("1970-01-01T00:00:01.5Z"), Ok(1_500));
    assert_eq!(prune_timestamp("2024-02-29T12:00:00Z"), Ok(1_709_208_000_000));
    assert_eq!(
        prune_timestamp("2024-02-29T12:00:00+01:00"),
        Err("prune timestamp must use UTC with a Z suffix".to_owned())
    );
    assert_eq!(
        prune_timestamp("yesterday"),
        Err("invalid UTC timestamp: the 'year' component could not be parsed".to_owned())
    );
    assert_eq!(
        prune_timestamp("2024-02-29T12:00:00Z!"),
        Err(
            "invalid UTC timestamp: unexpected trailing characters; the end of input was expected"
                .to_owned()
        )
    );
    assert_eq!(utc_milliseconds(1_999_999, 0), Ok(1));
    assert!(utc_milliseconds(0, 3_600).is_err());
}

#[test]
fn reports_are_printed_line_by_line() {
    let stats = ArchiveStats {
        sessions: 1,
        calls: 2,
        incomplete_calls: 0,
        logical_payload_bytes: 30,
        stored_payload_bytes: 20,
        database_bytes: 4_096,
        oldest_call_ms: None,
        newest_call_ms: Some(5),
    };
    let lines = stats_lines(&stats);
    assert!(lines.iter().any(|line| line.contains('2')));
    assert!(lines.iter().any(|line| line.contains("4096")));
    let clean = VerifyReport {
        incomplete_calls: 1,
        errors: Vec::new(),
    };
    let broken = VerifyReport {
        incomplete_calls: 0,
        errors: vec!["bad".to_owned()],
    };
    assert_eq!(verify_exit(&clean), 0);
    assert_ne!(verify_exit(&broken), 0);
}
