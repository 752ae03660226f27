use yarp::cli::running::parse_run;
use yarp::digest::digest_hex;
use yarp::rewrite::result_plan::select_builtin_words;
use yarp::rewrite::wrapper::{shell_quote, trim};
use yarp::rewrite::{
    ArchiveCommandRef, ExecutionPlan, ResultPlan, ResultPolicy, ShellPlan, StatusConfidence,
    contains_setup_diagnostic,
};
use yarp::rule_pack::model::{
    Action, CommandMatcher, OutputPolicy, Reducer, Rule, Transform,
};
use yarp::rules::registry::{BuiltinPack, Registry};
use yarp::rules::Selection;
use yarp::shell::parse_simple_words;

fn strings(values: &[&str]) -> Vec<String> {
    values.iter().map(ToString::to_string).collect()
}

fn policy() -> OutputPolicy {
    OutputPolicy {
        max_line_bytes: 16_384,
        max_output_bytes: 32_768,
        min_savings_bytes: 120,
        min_savings_basis_points: 1_000,
    }
}

fn rule_for(id: &str, programs: &[&str], prefix: &[&str], contains: &[&str]) -> Rule {
    Rule {
        id: id.to_owned(),
        matcher: CommandMatcher {
            program: strings(programs),
            argv_prefix: strings(prefix),
            argv_contains_all: strings(contains),
        },
        action: Action::Passthrough,
        transform: None,
        reducer: None,
        success: None,
        failure: None,
    }
}

fn reduction(id: &str, programs: &[&str], prefix: &[&str], reducer: Reducer) -> Rule {
    Rule {
        action: Action::Reduce,
        reducer: Some(reducer),
        success: Some(policy()),
        failure: Some(policy()),
        ..rule_for(id, programs, prefix, &[])
    }
}

/// A small pack of rules in the place of the one that ships with the program.
fn builtins() -> Registry {
    let mut rules = Vec::new();
    for (id, programs, prefix) in [
        ("git/diff", &["git"][..], &["diff"][..]),
    ] {
        rules.push(reduction(id, programs, prefix, Reducer::DiffSummary));
    }
    for (id, programs, prefix) in [
        ("git/status", &["git"][..], &["status"][..]),
        ("systemctl/status", &["systemctl"], &["status"]),
    ] {
        rules.push(reduction(id, programs, prefix, Reducer::StatusSummary));
    }
    for (id, programs, prefix) in [
        ("rg", &["rg"][..], &[][..]),
        ("grep", &["grep", "egrep", "fgrep"], &[]),
        ("git/grep", &["git"], &["grep"]),
    ] {
        rules.push(reduction(id, programs, prefix, Reducer::SearchSummary));
    }
    for (id, programs, prefix) in [
        ("npm/test", &["npm"][..], &["test"][..]),
        ("pnpm/test", &["pnpm"], &["test"]),
        ("pnpm/vitest", &["pnpm"], &["vitest", "run"]),
        ("pytest", &["pytest"], &[]),
        ("python/pytest", &["python3"], &["-m", "pytest"]),
        ("cargo/test", &["cargo"], &["test"]),
        ("go/test", &["go"], &["test"]),
    ] {
        rules.push(reduction(id, programs, prefix, Reducer::TestSummary));
    }
    for (id, programs, prefix) in [
        ("npm/lint", &["npm"][..], &["run", "lint"][..]),
        ("pnpm/build", &["pnpm"], &["build"]),
        ("pnpm/lint", &["pnpm"], &["lint"]),
        ("cargo/build", &["cargo"], &["build"]),
        ("cargo/check", &["cargo"], &["check"]),
        ("cargo/audit", &["cargo"], &["audit"]),
        ("go/vet", &["go"], &["vet"]),
        ("cmake", &["cmake"], &[]),
        ("ninja", &["ninja"], &[]),
        ("tsc", &["tsc"], &[]),
        ("eslint", &["eslint"], &[]),
        ("npx/eslint", &["npx"], &["eslint"]),
        ("pyright", &["pyright"], &[]),
        ("ruff", &["ruff"], &["check"]),
        ("uv/ruff", &["uv"], &["run", "ruff"]),
        ("mypy", &["mypy"], &[]),
        ("codex/review", &["codex"], &["review"]),
    ] {
        rules.push(reduction(id, programs, prefix, Reducer::BuildSummary));
    }
    for (id, programs, prefix) in [
        ("git/log", &["git"][..], &["log"][..]),
        ("containers/logs", &["docker", "podman"], &["logs"]),
        ("journalctl", &["journalctl"], &[]),
        ("hf/jobs", &["hf"], &["jobs", "logs"]),
        ("hf/spaces", &["hf"], &["spaces", "logs"]),
    ] {
        rules.push(reduction(id, programs, prefix, Reducer::LogSummary));
    }
    for (id, programs, prefix) in [
        ("git/reflog", &["git"][..], &["reflog"][..]),
        ("git/remote", &["git"], &["remote", "show"]),
        ("git/worktree", &["git"], &["worktree", "list"]),
        ("git/tag", &["git"], &["tag", "--list"]),
        ("git/stash", &["git"], &["stash", "list"]),
        ("gh/repo", &["gh"], &["repo", "view"]),
        ("gh/pr", &["gh"], &["pr", "view"]),
        ("gh/workflow", &["gh"], &["workflow", "view"]),
        ("containers/ps", &["docker", "podman"], &["ps"]),
        ("containers/images", &["docker", "podman"], &["images"]),
        ("kubectl/get", &["kubectl"], &["get"]),
        ("herdr/pane", &["herdr"], &["pane", "list"]),
        ("herdr/tab", &["herdr"], &["tab", "list"]),
        ("herdr/workspace", &["herdr"], &["workspace", "list"]),
        ("files", &["ls", "find", "fd", "tree", "du", "df", "lsof", "free", "ps"], &[]),
    ] {
        rules.push(reduction(id, programs, prefix, Reducer::ListSummary));
    }
    for (programs, prefix, contains) in [
        (&["git"][..], &["show"][..], &[][..]),
        (&["git"], &["diff"], &["--stat"]),
        (&["git"], &["status"], &["-z"]),
        (&["git"], &["grep"], &["-l"]),
        (&["git"], &["log"], &["-z"]),
        (&["git"], &["worktree", "list"], &["--porcelain"]),
        (&["git"], &["tag"], &["-z"]),
        (&["git"], &["reflog", "delete"], &[]),
        (&["git"], &["reflog"], &["--format"]),
        (&["git"], &["stash", "list"], &["--pretty"]),
        (&["rg"], &[], &["--json"]),
        (&["rg"], &[], &["--files"]),
        (&["rg"], &[], &["-l"]),
        (&["grep", "egrep", "fgrep"], &[], &["-l"]),
        (&["grep", "egrep", "fgrep"], &[], &["--count"]),
        (&["ls"], &[], &["--zero"]),
        (&["ls"], &[], &["-D"]),
        (&["find"], &[], &["-print0"]),
        (&["find"], &[], &["-exec"]),
        (&["fd"], &[], &["-0"]),
        (&["fd"], &[], &["-x"]),
        (&["tree"], &[], &["-J"]),
        (&["du"], &[], &["--null"]),
        (&["df"], &[], &["--output"]),
        (&["lsof"], &[], &["-F"]),
        (&["free"], &[], &["--seconds"]),
        (&["ps"], &[], &["-o"]),
        (&["cmake"], &[], &["--trace"]),
        (&["gh"], &[], &["--yaml"]),
        (&["gh"], &[], &["--json"]),
        (&["docker", "podman"], &[], &["--format"]),
        (&["docker", "podman"], &[], &["--quiet"]),
        (&["docker", "podman"], &[], &["--follow"]),
        (&["journalctl"], &[], &["--output"]),
        (&["systemctl"], &[], &["-o"]),
        (&["ninja"], &[], &["-t"]),
        (&["tsc"], &[], &["--showConfig"]),
        (&["eslint", "npx"], &[], &["--format"]),
        (&["pyright"], &[], &["--outputjson"]),
        (&["ruff"], &[], &["--output-format"]),
        (&["uv"], &[], &["--show-settings"]),
        (&["mypy"], &[], &["--output"]),
        (&["pytest"], &[], &["--json-report"]),
        (&["python3"], &[], &["--collect-only"]),
        (&["go"], &[], &["-json"]),
        (&["cargo"], &[], &["--message-format"]),
        (&["cargo"], &[], &["--json"]),
        (&["kubectl"], &[], &["-o"]),
        (&["npm"], &[], &["--reporter"]),
        (&["codex"], &[], &["--json"]),
        (&["pnpm"], &["vitest"], &["--watch"]),
        (&["hf"], &[], &["--follow"]),
        (&["hf"], &[], &["-f"]),
        (&["hf"], &[], &["--json"]),
        (&["hf"], &[], &["--format"]),
    ] {
        let id = format!("guards/{}", rules.len());
        rules.push(rule_for(&id, programs, prefix, contains));
    }
    for program in ["cat", "tee", "head", "tail", "sort", "uniq"] {
        rules.push(Rule {
            action: Action::Transform,
            transform: Some(Transform::LinePreserving),
            ..rule_for(&format!("lines/{program}"), &[program], &[], &[])
        });
    }
    Registry::builtins_only(BuiltinPack {
        id: "yarp-builtins".to_owned(),
        source_digest: [0x42; 32],
        rules,
    })
}

fn rewrite(command: &str) -> Option<String> {
    yarp::rewrite::rewrite(command, &Ok(builtins()))
}

fn plan(command: &str) -> Result<ShellPlan, String> {
    yarp::rewrite::plan_with_options(command, None, &Ok(builtins()), &Vec::new())
}

fn select_result_plan(command: &str) -> Result<ResultPlan, String> {
    yarp::rewrite::select_result_plan(command, &builtins())
}

fn select_result_rule(command: &str) -> Result<Rule, String> {
    yarp::rewrite::select_result_rule(command, &builtins())
}

fn select_builtin_argv(arguments: &[String]) -> Result<Selection, String> {
    yarp::rewrite::select_builtin_argv(arguments, &builtins())
}

#[test]
fn rewrites_selected_commands_without_changing_the_original_text() {
    let expected = format!(
        "yarp run --selected-pack 'yarp-builtins' --selected-rule 'git/diff' --selected-digest '{}' -- git diff -- 'file name'",
        digest_hex(&[0x42; 32])
    );
    assert_eq!(
        rewrite("  git diff -- 'file name'  ").as_deref(),
        Some(expected.as_str())
    );
    assert!(
        rewrite("npm run lint -- --fix")
            .is_some_and(|value| value.ends_with("-- npm run lint -- --fix"))
    );
    assert!(rewrite("pytest -q").is_some());
    assert!(rewrite("rg -n needle .").is_some());
    assert!(rewrite("egrep -n needle file").is_some());
    assert!(rewrite("fgrep needle file").is_some());
    assert!(rewrite("podman ps").is_some());
    assert!(rewrite("git reflog --date=iso").is_some());
    assert!(rewrite("git remote show origin").is_some());
    assert!(rewrite("gh repo view osolmaz/yarp").is_some());
    assert!(rewrite("pnpm -s build").is_some());
    assert!(rewrite("git -C /repo diff --check").is_some());
    assert!(rewrite("pnpm -C frontend test").is_some());
    assert!(rewrite("pnpm --filter web -r lint").is_some());
    assert!(rewrite("ls -la").is_some());
    assert!(rewrite("find src -name '*.rs'").is_some());
    assert!(rewrite("ps aux").is_some());
}

#[test]
fn adds_archive_identifiers_with_shell_quoting() {
    let rewritten = yarp::rewrite::rewrite_with_archive(
        "git status --short",
        Some(ArchiveCommandRef {
            agent: "pi",
            account: "o'nur",
            session_id: "session-1",
            call_id: "call-1",
        }),
        &Ok(builtins()),
    )
    .expect("rewrite");
    assert_eq!(
        rewritten,
        format!(
            "yarp run --selected-pack 'yarp-builtins' --selected-rule 'git/status' --selected-digest '{}' --archive-agent 'pi' --archive-account 'o'\\''nur' --archive-session 'session-1' --archive-call 'call-1' -- git status --short",
            digest_hex(&[0x42; 32])
        )
    );
}

#[test]
fn classifies_only_direct_archive_queries_as_recovery() {
    for command in [
        "yarp search yr_0123456789abcdef0123456789abcdef error",
        "yarp read yr_0123456789abcdef0123456789abcdef stdout 1:20",
        "yarp search yr_0123456789abcdef0123456789abcdef 'error|warning' -C 2",
    ] {
        let plan = plan(command).expect("recovery plan");
        assert!(matches!(plan.execution, ExecutionPlan::Original));
        assert_eq!(plan.result, ResultPolicy::Recovery);
    }
    for command in [
        "command yarp search ref error",
        "env DEBUG=1 yarp search ref error",
        "/usr/bin/yarp read ref 1:20",
        "yarp search ref error | head",
        "yarp read ref 1:20 > output",
        "yarp search ref error; printf extra",
        "yarp search $(printf ref) error",
        "yarp search ref error &",
        "yarp search --help",
    ] {
        let plan = plan(command).expect("ordinary plan");
        assert_eq!(
            plan.result,
            ResultPolicy::Ordinary,
            "classified {command:?}"
        );
    }
}

#[test]
fn leaves_unknown_and_guarded_commands_unchanged() {
    for command in [
        "",
        "cat .env",
        "curl https://example.com",
        "git push",
        "npm install",
        "git show HEAD:file",
        "rg --json needle .",
        "rg --files",
        "rg -l needle .",
        "rg -0l needle .",
        "grep -l needle file",
        "grep -lZ needle file",
        "egrep -l needle file",
        "fgrep --count needle file",
        "git status -sbz",
        "git grep -l needle",
        "git grep -lz needle",
        "git log --oneline -z",
        "ls --zero",
        "find . -print0",
        "find . -exec echo {} +",
        "fd -0 needle .",
        "fd -x echo {}",
        "tree -J .",
        "du --null .",
        "df --output=source,target",
        "lsof -F pcfn",
        "free --seconds 1",
        "ps aux -o pid=",
        "cmake -S . -B build --trace",
        "git worktree list --porcelain",
        "git tag --list -z",
        "git reflog delete main@{0}",
        "git reflog --format=%H",
        "gh workflow view ci.yml --yaml",
        "docker ps --format json",
        "docker images --quiet",
        "podman ps --format json",
        "podman logs --follow container",
        "journalctl --output=json",
        "systemctl status -o json sshd",
        "ninja -t compdb",
        "tsc --showConfig",
        "eslint --format json .",
        "npx eslint --format=json .",
        "pyright --outputjson",
        "ruff check --output-format json .",
        "uv run ruff --show-settings",
        "mypy --output=json .",
        "pytest --json-report",
        "python3 -m pytest --collect-only",
        "go vet -json ./...",
        "go test -json ./...",
        "cargo test --message-format=json",
        "cargo audit --json",
        "pnpm exec oxlint --format json",
        "gh pr view 1 --json=number,title",
        "git diff --stat",
        "kubectl get pods -ojson",
        "npm test -- --reporter=json",
        "codex review --json --base main",
        "yarp run -- git status",
    ] {
        assert_eq!(rewrite(command), None, "accepted {command:?}");
    }
}

#[test]
fn rejects_shell_control_syntax_and_expansion() {
    for command in [
        "git status | cat",
        "git status > result",
        "git status && echo done",
        "git status; echo done",
        "git status $(touch bad)",
        "git status `touch bad`",
        "git status # comment",
        "git status\nwhoami",
        "git status $HOME",
    ] {
        assert_eq!(rewrite(command), None, "accepted {command:?}");
    }
}

#[test]
fn classifies_only_compatible_compound_results() {
    let rule =
        select_result_rule("cd repo && cargo check; cargo build").expect("compatible build result");
    assert_eq!(rule.action, Action::Reduce);
    assert!(matches!(rule.reducer, Some(Reducer::BuildSummary)));
    assert!(select_result_rule("cargo test && cargo build").is_err());
    assert!(matches!(
        select_result_rule("GOWORK=off go test ./... 2>&1 || true")
            .expect("assignment and stream merge"),
        Rule {
            reducer: Some(Reducer::TestSummary),
            ..
        }
    ));
    assert!(matches!(
        select_result_rule("env CI=1 pnpm build && :").expect("environment wrapper"),
        Rule {
            reducer: Some(Reducer::BuildSummary),
            ..
        }
    ));
    assert!(matches!(
        select_result_rule("cargo test | cat").expect("line-preserving pipeline"),
        Rule {
            reducer: Some(Reducer::TestSummary),
            ..
        }
    ));
    assert!(select_result_rule("cargo test > result.log").is_err());
    assert!(select_result_rule("cargo test && echo done").is_err());
    assert!(select_result_rule("set && cargo test").is_err());
    assert!(select_result_rule("yarp search ref error").is_err());
}

#[test]
fn plans_safe_composite_results_and_rejects_uncertain_stages() {
    let search = select_result_plan("rg TODO . | sort | head -50").expect("search pipeline");
    assert!(matches!(search.rule.reducer, Some(Reducer::SearchSummary)));
    assert_eq!(search.status_confidence, StatusConfidence::FinalStageOnly);

    let list = select_result_plan("find . -type f | sort | uniq").expect("list pipeline");
    assert!(matches!(list.rule.reducer, Some(Reducer::ListSummary)));
    assert_eq!(list.status_confidence, StatusConfidence::FinalStageOnly);

    let test = select_result_plan("cargo test | tee test.log").expect("test pipeline");
    assert!(matches!(test.rule.reducer, Some(Reducer::TestSummary)));
    assert_eq!(test.status_confidence, StatusConfidence::FinalStageOnly);

    let pipefail = select_result_plan("set -o pipefail && cargo test | head -100")
        .expect("pipefail pipeline");
    assert_eq!(pipefail.status_confidence, StatusConfidence::Complete);
    let skipped_pipefail = select_result_plan("false && set -o pipefail; cargo test | head -1")
        .expect("conditionally skipped pipefail");
    assert_eq!(
        skipped_pipefail.status_confidence,
        StatusConfidence::FinalStageOnly
    );
    let conditional_disable =
        select_result_plan("set -o pipefail; false && set +o pipefail; cargo test | head -1")
            .expect("conditional pipefail disable");
    assert_eq!(
        conditional_disable.status_confidence,
        StatusConfidence::FinalStageOnly
    );

    let sequence = select_result_plan("cargo test; cargo test").expect("test sequence");
    assert_eq!(sequence.status_confidence, StatusConfidence::FinalStageOnly);
    for command in [
        "cd missing; cargo test",
        "export CI=1; cargo test",
        "VALUE=1; cargo test",
        "umask invalid; cargo test",
    ] {
        let plan = select_result_plan(command).expect("fallible setup sequence");
        assert_eq!(
            plan.status_confidence,
            StatusConfidence::FinalStageOnly,
            "{command:?}"
        );
    }
    let conjunction = select_result_plan("cargo test && cargo test").expect("test conjunction");
    assert_eq!(conjunction.status_confidence, StatusConfidence::Complete);
    let multiline = select_result_plan("cargo test\ncargo test").expect("multiline tests");
    assert_eq!(
        multiline.status_confidence,
        StatusConfidence::FinalStageOnly
    );
    let masked = select_result_plan("cargo test; true").expect("masked test status");
    assert_eq!(masked.status_confidence, StatusConfidence::FinalStageOnly);
    assert!(select_result_plan("export CI=1; umask 077; cargo test").is_ok());

    for command in [
        "cargo test | head source.txt",
        "find . -type f | sort existing.txt",
        "find . -type f | sort --compress-program=cat",
        "find . -type f | sort --compress-program cat",
        "ls -D",
        "git tag --list --format=%(refname)",
        "git stash list --pretty=format:%H",
        "rg --json TODO . | jq .",
        "find . -print0 | xargs -0 echo",
        "cat source.rs | sed 's/x/y/'",
        "set -o; cargo test",
        "set -x; cargo test",
        "set -v; cargo test",
        "export -p; cargo test",
        "umask -S; cargo test",
        "echo \"$VALUE\" | rg x",
        "cargo test | unknown-filter",
        "cargo test |& head",
        "cat source.rs | head",
    ] {
        assert!(select_result_plan(command).is_err(), "planned {command:?}");
    }
}

#[test]
fn handles_quotes_and_escapes_conservatively() {
    assert!(rewrite("git diff file\\ name").is_some());
    assert!(rewrite("'git' \"status\"").is_some());
    assert!(rewrite("git diff '$HOME'").is_some());
    assert_eq!(rewrite("git diff \"$HOME\""), None);
    assert_eq!(rewrite("git diff 'unterminated"), None);
    assert_eq!(rewrite("git diff trailing\\"), None);
}

#[test]
fn validates_parsed_child_arguments() {
    assert!(matches!(
        select_builtin_argv(&strings(&["cargo", "test", "--workspace"])),
        Ok(Selection::Reduce(_))
    ));
    assert!(matches!(
        select_builtin_argv(&strings(&["go", "test", "./..."])),
        Ok(Selection::Reduce(_))
    ));
    assert!(matches!(
        select_builtin_argv(&strings(&["git", "show", "HEAD:file"])),
        Ok(Selection::Passthrough(_))
    ));
    assert!(matches!(
        select_builtin_argv(&strings(&["git", "push"])),
        Ok(Selection::Unsupported)
    ));
}

#[test]
fn classifies_reviewed_commands_and_guards_streaming_or_structured_output() {
    for arguments in [
        &["hf", "jobs", "logs", "job-id"][..],
        &["hf", "spaces", "logs", "owner/space", "--build"][..],
    ] {
        let Ok(Selection::Reduce(selected)) = select_builtin_argv(&strings(arguments)) else {
            panic!("did not reduce {arguments:?}");
        };
        assert!(matches!(selected.rule.rule().reducer, Some(Reducer::LogSummary)));
    }
    for arguments in [
        &["herdr", "pane", "list"][..],
        &["herdr", "tab", "list", "--workspace", "w1"][..],
        &["herdr", "workspace", "list"][..],
    ] {
        let Ok(Selection::Reduce(selected)) = select_builtin_argv(&strings(arguments)) else {
            panic!("did not reduce {arguments:?}");
        };
        assert!(matches!(selected.rule.rule().reducer, Some(Reducer::ListSummary)));
    }
    let arguments = ["pnpm", "vitest", "run", "src/example.test.ts"];
    let Ok(Selection::Reduce(selected)) = select_builtin_argv(&strings(&arguments)) else {
        panic!("did not reduce {arguments:?}");
    };
    assert!(matches!(selected.rule.rule().reducer, Some(Reducer::TestSummary)));
    for arguments in [
        &["hf", "jobs", "logs", "job-id", "--follow"][..],
        &["hf", "jobs", "logs", "job-id", "-f"][..],
        &["hf", "jobs", "logs", "job-id", "--json"][..],
        &["hf", "jobs", "logs", "job-id", "--format=json"][..],
        &["hf", "jobs", "logs", "job-id", "--format", "quiet"][..],
        &["pnpm", "vitest", "run", "--watch"][..],
    ] {
        assert!(matches!(
            select_builtin_argv(&strings(arguments)),
            Ok(Selection::Passthrough(_))
        ));
    }
    for arguments in [&["pnpm", "vitest"][..], &["pnpm", "vitest", "watch"][..]] {
        assert!(!matches!(
            select_builtin_argv(&strings(arguments)),
            Ok(Selection::Reduce(_))
        ));
    }
}

#[test]
fn a_quoted_value_is_read_as_one_word() {
    for value in ["", "plain", "two words", "o'nur", "''", "$HOME `x` \"y\" \\", "line\nbreak"] {
        assert_eq!(
            parse_simple_words(&shell_quote(value)).expect("words"),
            vec![value.to_owned()]
        );
    }
    assert_eq!(shell_quote("a'b"), "'a'\\''b'");
    assert_eq!(trim(" \t\u{a0}git status\n "), "git status");
}

#[test]
fn words_that_were_not_parsed_are_reported() {
    let error = select_builtin_words(Err("no words".to_owned()), &builtins()).expect_err("error");
    assert_eq!(error, "no words");
    let (words, selection) =
        yarp::rewrite::select_builtin_command("git status --short", &builtins()).expect("command");
    assert_eq!(words, strings(&["git", "status", "--short"]));
    assert!(matches!(selection, Selection::Reduce(_)));
    assert!(yarp::rewrite::select_builtin_command("git status | cat", &builtins()).is_err());
}

#[test]
fn packs_that_cannot_be_loaded_stop_only_commands_that_need_them() {
    let broken = Err("could not load packs".to_owned());
    let contents = Vec::new();
    assert_eq!(
        yarp::rewrite::rewrite_with_options("git status", None, &broken, &contents)
            .expect_err("packs"),
        "could not load packs"
    );
    assert_eq!(
        yarp::rewrite::rewrite_with_options("yarp read ref 1:2", None, &broken, &contents),
        Ok(None)
    );
    assert_eq!(
        yarp::rewrite::rewrite_with_options("git status | cat", None, &broken, &contents),
        Ok(None)
    );
}

#[test]
fn setup_diagnostics_are_found_without_regard_to_case() {
    assert!(contains_setup_diagnostic(b"bash: line 1: CD: missing: No such file\n"));
    assert!(!contains_setup_diagnostic(b"abcd\n"));
}

#[test]
fn a_wrapper_is_read_back_as_the_run_that_it_was_made_for() {
    let wrapper = yarp::rewrite::rewrite_with_archive(
        "git status --short 'a b'",
        Some(ArchiveCommandRef {
            agent: "pi",
            account: "o'nur",
            session_id: "--",
            call_id: "call 1",
        }),
        &Ok(builtins()),
    )
    .expect("wrapper");
    let words = parse_simple_words(&wrapper).expect("words");
    assert_eq!(words[..2], strings(&["yarp", "run"]));
    let run = parse_run(&words[2..], Err("not read".to_owned())).expect("run");
    assert_eq!(run.child, strings(&["git", "status", "--short", "a b"]));
    assert!(run.packs.is_empty());
    let key = run.key.expect("archived call");
    assert_eq!(key.session.agent, "pi");
    assert_eq!(key.session.account, "o'nur");
    assert_eq!(key.session.source_session_id, "--");
    assert_eq!(key.source_call_id, "call 1");
    let expected = run.expected.expect("selection");
    assert_eq!(expected.pack_id, "yarp-builtins");
    assert_eq!(expected.rule_id, "git/status");
    assert_eq!(expected.source_digest, [0x42; 32]);
}

#[test]
fn nothing_is_rewritten_without_rules() {
    let broken = Err("could not load packs".to_owned());
    assert_eq!(yarp::rewrite::rewrite("git status", &broken), None);
}
