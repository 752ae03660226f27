use yarp::archive_query::arguments::parse_search;
use yarp::archive_query::lines::normalize_line;
use yarp::archive_query::matcher::compile_matcher;
use yarp::archive_query::reading::{ReadRange, parse_read};
use yarp::archive_query::results::{SearchOutcome, search};
use yarp::reducers::filter::AnsiStripper;

fn strings(values: &[&str]) -> Vec<String> {
    values.iter().map(ToString::to_string).collect()
}

#[test]
fn parses_search_options_in_any_position() {
    let options = parse_search(&strings(&[
        "-i",
        "yr_0123456789abcdef0123456789abcdef",
        "error",
        "-C",
        "3",
        "--max-results",
        "20",
    ]))
    .expect("search options");
    assert!(options.ignore_case);
    assert_eq!(options.before, 3);
    assert_eq!(options.after, 3);
    assert_eq!(options.max_results, 20);
}

#[test]
fn supports_short_max_results_and_rejects_old_long_spelling() {
    let options = parse_search(&strings(&[
        "yr_0123456789abcdef0123456789abcdef",
        "error",
        "-m",
        "7",
    ]))
    .expect("short max-results option");
    assert_eq!(options.max_results, 7);
    assert!(
        parse_search(&strings(&[
            "yr_0123456789abcdef0123456789abcdef",
            "error",
            "--max-count",
            "7",
        ]))
        .is_err()
    );
}

#[test]
fn ignore_case_uses_ascii_matching_without_unicode_features() {
    let options = parse_search(&strings(&[
        "yr_0123456789abcdef0123456789abcdef",
        "error.*code",
        "-i",
    ]))
    .expect("case-insensitive search options");
    let matcher = compile_matcher(&options).expect("case-insensitive matcher");
    assert!(matcher.is_match(b"ERROR 42 CODE"));
    assert!(matcher.is_match("éERROR code".as_bytes()));
}

#[test]
fn word_regexp_uses_ascii_boundaries_without_unicode_features() {
    let options = parse_search(&strings(&[
        "yr_0123456789abcdef0123456789abcdef",
        "error",
        "-w",
    ]))
    .expect("word search options");
    let matcher = compile_matcher(&options).expect("word matcher");
    assert!(matcher.is_match(b"error"));
    assert!(matcher.is_match(b"an error!"));
    assert!(matcher.is_match("éerroré".as_bytes()));
    assert!(!matcher.is_match(b"terror"));
    assert!(!matcher.is_match(b"error_code"));
}

#[test]
fn rejects_ambiguous_patterns_and_noncanonical_counts() {
    assert!(
        parse_search(&strings(&[
            "yr_0123456789abcdef0123456789abcdef",
            "one",
            "-e",
            "two",
        ]))
        .is_err()
    );
    assert!(
        parse_search(&strings(&[
            "yr_0123456789abcdef0123456789abcdef",
            "one",
            "-C",
            "03",
        ]))
        .is_err()
    );
}

#[test]
fn strips_ansi_and_renders_control_bytes_visibly() {
    let mut stripper = AnsiStripper::new();
    assert_eq!(
        normalize_line(b"\x1b[31merror\x1b[0m\x07\n", &mut stripper).expect("line"),
        "error\\x07"
    );
}

#[test]
fn parses_exact_line_and_byte_ranges() {
    assert!(matches!(
        parse_read(&strings(&[
            "yr_0123456789abcdef0123456789abcdef",
            "stdout",
            "1:4"
        ]))
        .expect("line read")
        .range,
        ReadRange::Lines { start: 1, end: 4 }
    ));
    assert!(matches!(
        parse_read(&strings(&[
            "yr_0123456789abcdef0123456789abcdef",
            "stdout",
            "--bytes",
            "0:4"
        ]))
        .expect("byte read")
        .range,
        ReadRange::Bytes { start: 0, end: 4 }
    ));
}

const REFERENCE: &str = "yr_0123456789abcdef0123456789abcdef";

#[test]
fn a_pattern_that_is_not_well_formed_is_refused() {
    let error = search(&strings(&[REFERENCE, "(open"]), Ok(Vec::new())).unwrap_err();
    assert_eq!(
        error,
        "invalid bounded search pattern: regex parse error:\n    (?:(open)\n    ^\nerror: unclosed group"
    );
}

#[test]
fn a_pattern_that_is_too_large_names_the_limit() {
    assert_eq!(
        search(&strings(&[REFERENCE, "(?:a{1000}){1000}"]), Ok(Vec::new())).unwrap_err(),
        "invalid bounded search pattern: Compiled regex exceeds size limit of 524288 bytes."
    );
}

#[test]
fn a_well_formed_pattern_is_searched() {
    assert!(matches!(
        search(&strings(&[REFERENCE, "a|b"]), Ok(Vec::new())),
        Ok(SearchOutcome::NoMatches(_))
    ));
    assert_eq!(
        search(&strings(&[REFERENCE, "a|b"]), Err("no such call".to_owned())).unwrap_err(),
        "no such call"
    );
}
