//! What holds of the command line.
use vstd::prelude::*;

use super::commands::{Command, ConfigCommand, command_of, config_command_of, stats_lines_of};
use super::rewriting::{RewriteOutcome, rewrite_of, rewrite_scanned};
use super::running::{KeyModel, RequestModel, RunOutcome, run_of};
use super::timestamps::milliseconds;
use crate::archive::verification::ArchiveStats;
use crate::text::signed_digits;

verus! {

/// What stands behind `--` is run, word for word, with the packs of the configuration. Without a
/// command there is nothing to run.
pub proof fn lemma_plain_run(child: Seq<Seq<char>>, configured: Result<Seq<RequestModel>, Seq<char>>)
    ensures
        child.len() > 0 ==> match configured {
            Ok(packs) => run_of(seq!["--"@] + child, configured) == Ok::<RunOutcome, Seq<char>>(
                RunOutcome { key: None, child, packs, expected: None },
            ),
            Err(error) => run_of(seq!["--"@] + child, configured) is Err,
        },
        run_of(seq!["--"@], configured) is Err,
        run_of(Seq::empty(), configured) is Err,
{
    let arguments = seq!["--"@] + child;
    assert(arguments[0] == "--"@);
    assert(arguments.skip(1) =~= child);
    if let Ok(packs) = configured {
        assert(packs + Seq::<RequestModel>::empty() =~= packs);
    }
    assert(seq!["--"@][0] == "--"@);
}

/// The text is none of the options of a rewrite.
pub open spec fn is_no_option(text: Seq<char>) -> bool {
    text.len() < 2 || text[0] != '-' || text[1] != '-'
}

/// One argument is the command to be rewritten, with the packs of the configuration and no call.
pub proof fn lemma_plain_rewrite(
    command: Seq<char>,
    canonical: Seq<Result<String, String>>,
    packs: Seq<RequestModel>,
)
    ensures
        rewrite_of(seq![command], canonical, Ok(packs)) == Ok::<RewriteOutcome, Seq<char>>(
            RewriteOutcome { packs, reference: None, command },
        ),
        rewrite_of(Seq::empty(), canonical, Ok(packs)) is Err,
        is_no_option(command) ==> rewrite_of(seq![command, command], canonical, Ok(packs)) is Err,
{
    assert(seq![command].len() == 1 && seq![command][0] == command);
    let two = seq![command, command];
    assert(two.len() == 2 && two[0] == command);
    reveal_strlit("--project-root");
    reveal_strlit("--rule-pack");
    reveal_strlit("--archive-agent");
    reveal_strlit("--archive-account");
    reveal_strlit("--archive-session");
    reveal_strlit("--archive-call");
    reveal_strlit("--");
    if is_no_option(command) {
        if crate::text::opens_with(command, "--"@) {
            assert(command.take(2)[0] == command[0] && command.take(2)[1] == command[1]);
        }
        assert("--project-root"@[1] == '-' && "--rule-pack"@[1] == '-' && "--archive-agent"@[1]
            == '-' && "--archive-account"@[1] == '-' && "--archive-session"@[1] == '-'
            && "--archive-call"@[1] == '-');
    }
}

proof fn lemma_option_names_differ()
    ensures
        "--project-root"@.len() == 14,
        "--rule-pack"@.len() == 11,
        "--archive-agent"@.len() == 15,
        "--archive-account"@.len() == 17,
        "--archive-session"@.len() == 17,
        "--archive-call"@.len() == 14,
        "--archive-account"@ != "--archive-session"@,
        "--project-root"@ != "--archive-call"@,
{
    reveal_strlit("--project-root");
    reveal_strlit("--rule-pack");
    reveal_strlit("--archive-agent");
    reveal_strlit("--archive-account");
    reveal_strlit("--archive-session");
    reveal_strlit("--archive-call");
    assert("--archive-account"@[10] == 'a' && "--archive-session"@[10] == 's');
    assert("--project-root"@[2] == 'p' && "--archive-call"@[2] == 'a');
}

/// A rewrite for an archived call names the agent, the account, the session and the call, and each
/// is taken for what it is. Without one of them the rewrite is refused.
pub proof fn lemma_archived_rewrite(
    key: KeyModel,
    command: Seq<char>,
    canonical: Seq<Result<String, String>>,
    packs: Seq<RequestModel>,
)
    ensures
        rewrite_of(
            seq![
                "--archive-agent"@, key.agent, "--archive-account"@, key.account,
                "--archive-session"@, key.session, "--archive-call"@, key.call, command,
            ],
            canonical,
            Ok(packs),
        ) == Ok::<RewriteOutcome, Seq<char>>(
            RewriteOutcome { packs, reference: Some(key), command },
        ),
        rewrite_of(seq!["--archive-agent"@, key.agent, command], canonical, Ok(packs)) is Err,
        rewrite_of(seq!["--archive-call"@, key.call, command], canonical, Ok(packs)) is Err,
{
    lemma_option_names_differ();
    reveal_with_fuel(rewrite_scanned, 6);
    let whole = seq![
        "--archive-agent"@, key.agent, "--archive-account"@, key.account, "--archive-session"@,
        key.session, "--archive-call"@, key.call, command,
    ];
    assert(whole.len() == 9 && whole[0] == "--archive-agent"@ && whole[1] == key.agent && whole[2]
        == "--archive-account"@ && whole[3] == key.account && whole[4] == "--archive-session"@
        && whole[5] == key.session && whole[6] == "--archive-call"@ && whole[7] == key.call
        && whole[8] == command);
    let agent = seq!["--archive-agent"@, key.agent, command];
    assert(agent.len() == 3 && agent[0] == "--archive-agent"@ && agent[1] == key.agent);
    let call = seq!["--archive-call"@, key.call, command];
    assert(call.len() == 3 && call[0] == "--archive-call"@ && call[1] == key.call);
}

/// A pack that is named for a rewrite comes behind those of the configuration.
pub proof fn lemma_rewrite_with_a_pack(
    path: Seq<char>,
    command: Seq<char>,
    canonical: Seq<Result<String, String>>,
    packs: Seq<RequestModel>,
)
    ensures
        rewrite_of(seq!["--rule-pack"@, path, command], canonical, Ok(packs)) == Ok::<
            RewriteOutcome,
            Seq<char>,
        >(
            RewriteOutcome {
                packs: packs.push(RequestModel { path, source: None, compiled: None }),
                reference: None,
                command,
            },
        ),
{
    lemma_option_names_differ();
    reveal_with_fuel(rewrite_scanned, 3);
    let whole = seq!["--rule-pack"@, path, command];
    assert(whole.len() == 3 && whole[0] == "--rule-pack"@ && whole[1] == path && whole[2]
        == command);
}

proof fn lemma_command_names_differ()
    ensures
        "plan"@.len() == 4 && "plan"@[0] == 'p',
        "rewrite"@.len() == 7 && "rewrite"@[1] == 'e',
        "run"@.len() == 3,
        "config"@.len() == 6 && "config"@[0] == 'c',
        "rules"@.len() == 5,
        "search"@.len() == 6 && "search"@[0] == 's',
        "read"@.len() == 4 && "read"@[0] == 'r',
        "result-reduce"@.len() == 13,
        "archive"@.len() == 7 && "archive"@[1] == 'r',
        "--help"@.len() == 6 && "--help"@[0] == '-',
        "-h"@.len() == 2 && "-h"@[1] == 'h',
        "--version"@.len() == 9,
        "-V"@.len() == 2 && "-V"@[1] == 'V',
{
    reveal_strlit("plan");
    reveal_strlit("rewrite");
    reveal_strlit("run");
    reveal_strlit("config");
    reveal_strlit("rules");
    reveal_strlit("search");
    reveal_strlit("read");
    reveal_strlit("result-reduce");
    reveal_strlit("archive");
    reveal_strlit("--help");
    reveal_strlit("-h");
    reveal_strlit("--version");
    reveal_strlit("-V");
}

proof fn lemma_archive_names_differ()
    ensures
        "stats"@.len() == 5 && "stats"@[0] == 's',
        "verify"@.len() == 6 && "verify"@[0] == 'v',
        "ingest"@.len() == 6 && "ingest"@[0] == 'i',
        "broker"@.len() == 6 && "broker"@[0] == 'b',
        "restore"@.len() == 7,
        "prune"@.len() == 5 && "prune"@[0] == 'p',
{
    reveal_strlit("stats");
    reveal_strlit("verify");
    reveal_strlit("ingest");
    reveal_strlit("broker");
    reveal_strlit("restore");
    reveal_strlit("prune");
}

/// Each command is called by its name, whatever arguments follow.
pub proof fn lemma_names_of_commands(rest: Seq<Seq<char>>)
    ensures
        command_of(Seq::empty()) == Command::Help,
        command_of(seq!["--help"@]) == Command::Help,
        command_of(seq!["--version"@]) == Command::Version,
        command_of(seq!["plan"@, "--json"@] + rest) == Command::Plan,
        command_of(seq!["rewrite"@] + rest) == Command::Rewrite,
        command_of(seq!["run"@] + rest) == Command::Run,
        command_of(seq!["config"@] + rest) == Command::Config,
        command_of(seq!["rules"@] + rest) == Command::Rules,
        command_of(seq!["search"@] + rest) == Command::Search,
        command_of(seq!["read"@] + rest) == Command::Read,
        command_of(seq!["result-reduce"@]) == Command::ResultReduce,
        command_of(seq!["archive"@, "stats"@]) == Command::ArchiveStats,
        command_of(seq!["archive"@, "verify"@]) == Command::ArchiveVerify,
        command_of(seq!["archive"@, "ingest"@]) == Command::ArchiveIngest,
        command_of(seq!["archive"@, "broker"@]) == Command::ArchiveBroker,
        command_of(seq!["archive"@, "restore"@] + rest) == Command::ArchiveRestore,
        rest.len() == 1 ==> command_of(seq!["archive"@, "prune"@, "--before"@] + rest)
            == Command::ArchivePrune,
{
    lemma_command_names_differ();
    lemma_archive_names_differ();
    assert((seq!["plan"@, "--json"@] + rest)[0] == "plan"@);
    assert((seq!["plan"@, "--json"@] + rest)[1] == "--json"@);
    assert((seq!["rewrite"@] + rest)[0] == "rewrite"@);
    assert((seq!["run"@] + rest)[0] == "run"@);
    assert((seq!["config"@] + rest)[0] == "config"@);
    assert((seq!["rules"@] + rest)[0] == "rules"@);
    assert((seq!["search"@] + rest)[0] == "search"@);
    assert((seq!["read"@] + rest)[0] == "read"@);
    assert((seq!["archive"@, "restore"@] + rest)[0] == "archive"@);
    assert((seq!["archive"@, "restore"@] + rest)[1] == "restore"@);
    assert(seq!["--help"@][0] == "--help"@);
    assert(seq!["--version"@][0] == "--version"@);
    assert(seq!["result-reduce"@][0] == "result-reduce"@);
    let stats = seq!["archive"@, "stats"@];
    assert(stats[0] == "archive"@ && stats[1] == "stats"@);
    let verify = seq!["archive"@, "verify"@];
    assert(verify[0] == "archive"@ && verify[1] == "verify"@);
    let ingest = seq!["archive"@, "ingest"@];
    assert(ingest[0] == "archive"@ && ingest[1] == "ingest"@);
    let broker = seq!["archive"@, "broker"@];
    assert(broker[0] == "archive"@ && broker[1] == "broker"@);
    let prune = seq!["archive"@, "prune"@, "--before"@] + rest;
    assert(prune[0] == "archive"@ && prune[1] == "prune"@ && prune[2] == "--before"@);
}

/// Each command for the configuration is called by its name.
pub proof fn lemma_names_of_config_commands(field: Seq<char>, values: Seq<Seq<char>>)
    requires
        values.len() > 0,
    ensures
        config_command_of(Seq::empty()) == ConfigCommand::Help,
        config_command_of(seq!["path"@]) == ConfigCommand::Path,
        config_command_of(seq!["init"@]) == ConfigCommand::Init,
        config_command_of(seq!["show"@]) == ConfigCommand::Show,
        config_command_of(seq!["check"@]) == ConfigCommand::Check,
        config_command_of(seq!["show"@, "--json"@]) == ConfigCommand::ShowJson,
        config_command_of(seq!["get"@, field]) == ConfigCommand::GetField,
        config_command_of(seq!["set"@, field] + values) == ConfigCommand::SetField,
        config_command_of(seq!["unset"@, field]) == ConfigCommand::UnsetField,
{
    reveal_strlit("path");
    reveal_strlit("init");
    reveal_strlit("show");
    reveal_strlit("check");
    reveal_strlit("get");
    reveal_strlit("set");
    reveal_strlit("unset");
    lemma_command_names_differ();
    assert("path"@[0] == 'p' && "init"@[0] == 'i' && "show"@[0] == 's' && "get"@[0] == 'g'
        && "set"@[0] == 's' && "unset"@[0] == 'u' && "check"@[0] == 'c' && "path"@.len() == 4
        && "check"@.len() == 5 && "set"@.len() == 3 && "get"@.len() == 3);
    assert(seq!["path"@][0] == "path"@ && seq!["init"@][0] == "init"@ && seq!["show"@][0] == "show"@
        && seq!["check"@][0] == "check"@);
    let json = seq!["show"@, "--json"@];
    assert(json[0] == "show"@ && json[1] == "--json"@);
    let get = seq!["get"@, field];
    assert(get[0] == "get"@);
    let set = seq!["set"@, field] + values;
    assert(set[0] == "set"@ && set.len() > 2);
    let unset = seq!["unset"@, field];
    assert(unset[0] == "unset"@);
}

/// Milliseconds are whole, never further from 1970 than the time itself, and less than one
/// millisecond nearer.
pub proof fn lemma_milliseconds_are_whole(nanoseconds: int)
    ensures
        nanoseconds >= 0 ==> 1_000_000 * milliseconds(nanoseconds) <= nanoseconds < 1_000_000 * (
        milliseconds(nanoseconds) + 1),
        nanoseconds < 0 ==> 1_000_000 * (milliseconds(nanoseconds) - 1) < nanoseconds <= 1_000_000
            * milliseconds(nanoseconds),
{
}

/// The figures of an archive are shown one to a line, each behind its name.
pub proof fn lemma_lines_of_figures(stats: ArchiveStats)
    ensures
        ({
            let lines = stats_lines_of(stats);
            &&& lines.len() >= 6
            &&& lines[0] == "sessions: "@ + signed_digits(stats.sessions as int)
            &&& lines[1] == "calls: "@ + signed_digits(stats.calls as int)
            &&& lines[2] == "incomplete_calls: "@ + signed_digits(stats.incomplete_calls as int)
            &&& lines[3] == "logical_payload_bytes: "@ + signed_digits(
                stats.logical_payload_bytes as int,
            )
            &&& lines[4] == "stored_payload_bytes: "@ + signed_digits(
                stats.stored_payload_bytes as int,
            )
            &&& lines[5] == "database_bytes: "@ + signed_digits(stats.database_bytes as int)
            &&& stats.oldest_call_ms matches Some(at) ==> lines.len() > 6 && lines[6]
                == "oldest_call_ms: "@ + signed_digits(at as int)
            &&& stats.newest_call_ms matches Some(at) ==> lines.last() == "newest_call_ms: "@
                + signed_digits(at as int)
        }),
{
}

} // verus!
