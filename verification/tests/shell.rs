use yarp::shell::{Connector, ShellItem, parse, parse_simple_words};

fn words(command: &str) -> Option<Vec<String>> {
    parse_simple_words(command).ok()
}

#[test]
fn words_are_split_and_unquoted() {
    let expected = |values: &[&str]| Some(values.iter().map(ToString::to_string).collect::<Vec<_>>());
    assert_eq!(words("git  status"), expected(&["git", "status"]));
    assert_eq!(words("a'b c'\"d e\"\\ f"), expected(&["ab cd e f"]));
    assert_eq!(words("''"), expected(&[""]));
    assert_eq!(words("echo '$HOME'"), expected(&["echo", "$HOME"]));
    assert_eq!(words("echo \"a\\\"b\""), expected(&["echo", "a\"b"]));
}

#[test]
fn syntax_that_expands_is_refused() {
    for command in [
        "echo $HOME",
        "echo `x`",
        "echo \"$(x)\"",
        "echo > file",
        "echo < file",
        "(echo)",
        "echo &",
        "echo # note",
        "echo 'open",
        "echo \\",
        "a | | b",
        "&& a",
    ] {
        assert_eq!(
            parse(command).expect_err("refused"),
            "shell command uses unsupported syntax",
            "{command:?}"
        );
    }
}

#[test]
fn compound_commands_keep_their_connectors() {
    let program = parse("a && b | c; d || e\nf").expect("program");
    assert_eq!(program.items.len(), 5);
    assert_eq!(
        program.connectors,
        vec![Connector::And, Connector::Sequence, Connector::Or, Connector::Sequence]
    );
    assert!(matches!(&program.items[1], ShellItem::Pipeline(stages) if stages.len() == 2));
    assert!(matches!(&program.items[0], ShellItem::Simple(simple) if simple.words == ["a"]));
}

#[test]
fn merged_streams_are_accepted_in_programs_only() {
    assert!(parse("cargo test 2>&1").is_ok());
    assert!(parse_simple_words("cargo test 2>&1").is_err());
    assert!(parse("cargo test >&2").is_err());
}
