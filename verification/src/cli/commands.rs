//! Which command is meant, and how it ends.
use vstd::prelude::*;

use crate::archive::verification::{ArchiveStats, VerifyReport};
use crate::text::{
    decimal, join2, same_text, signed_decimal, signed_digits, texts,
};

verus! {

/// What is printed about the commands.
pub const HELP: &'static str =
    "YARP prunes developer command output and archives Pi tool calls.\n\nUsage:\n  yarp plan --json [--rule-pack <path>]... <shell-command>\n  yarp rewrite [--rule-pack <path>]... <shell-command>\n  yarp run [--rule-pack <path>]... -- <command> [arguments...]\n  yarp config <path|init|show|get|set|unset|check>\n  yarp rules check <source-pack>\n  yarp rules compile <source-pack> --output <compiled-pack>\n  yarp rules verify <compiled-pack>\n  yarp rules list [--rule-pack <path>]... [--json]\n  yarp rules explain [--rule-pack <path>]... [--json] -- <command> [arguments...]\n  yarp search REF PATTERN [options]\n  yarp read REF [SOURCE] START:END\n  yarp read REF SOURCE --bytes START:END\n  yarp archive stats\n  yarp archive verify\n  yarp archive prune --before <UTC timestamp>\n  yarp archive ingest\n  yarp --skill list\n  yarp --skill show yarp\n  yarp --skill export yarp\n  yarp --help\n  yarp --version\n";

/// What is printed about the commands for the configuration.
pub const CONFIG_HELP: &'static str =
    "Manage YARP configuration.\n\nUsage:\n  yarp config path\n  yarp config init\n  yarp config show [--json]\n  yarp config get <field>\n  yarp config set <field> [value ...]\n  yarp config unset <field>\n  yarp config check\n";

/// How a command ends that was not understood.
pub const USAGE_EXIT: i32 = 64;

/// How a command ends that leaves a shell command as it is.
pub const UNCHANGED_EXIT: i32 = 3;

/// A command. The arguments of one that has some begin after its name.
#[derive(Clone, Copy, Debug, PartialEq, Eq, Structural)]
pub enum Command {
    Help,
    Version,
    Plan,
    Rewrite,
    Run,
    Config,
    Rules,
    Search,
    Read,
    ResultReduce,
    ArchiveStats,
    ArchiveVerify,
    ArchiveIngest,
    ArchiveBroker,
    ArchiveRestore,
    ArchivePrune,
    Invalid,
}

/// The command that some arguments name.
pub open spec fn command_of(arguments: Seq<Seq<char>>) -> Command {
    let first = arguments[0];
    let second = arguments[1];
    if arguments.len() == 0 {
        Command::Help
    } else if arguments.len() == 1 && (first == "--help"@ || first == "-h"@) {
        Command::Help
    } else if arguments.len() == 1 && (first == "--version"@ || first == "-V"@) {
        Command::Version
    } else if first == "plan"@ && arguments.len() >= 2 && second == "--json"@ {
        Command::Plan
    } else if first == "rewrite"@ {
        Command::Rewrite
    } else if first == "run"@ {
        Command::Run
    } else if first == "config"@ {
        Command::Config
    } else if first == "rules"@ {
        Command::Rules
    } else if first == "search"@ {
        Command::Search
    } else if first == "read"@ {
        Command::Read
    } else if first == "result-reduce"@ && arguments.len() == 1 {
        Command::ResultReduce
    } else if first == "archive"@ && arguments.len() == 2 && second == "stats"@ {
        Command::ArchiveStats
    } else if first == "archive"@ && arguments.len() == 2 && second == "verify"@ {
        Command::ArchiveVerify
    } else if first == "archive"@ && arguments.len() == 2 && second == "ingest"@ {
        Command::ArchiveIngest
    } else if first == "archive"@ && arguments.len() == 2 && second == "broker"@ {
        Command::ArchiveBroker
    } else if first == "archive"@ && arguments.len() >= 2 && second == "restore"@ {
        Command::ArchiveRestore
    } else if first == "archive"@ && arguments.len() == 4 && second == "prune"@ && arguments[2]
        == "--before"@ {
        Command::ArchivePrune
    } else {
        Command::Invalid
    }
}

/// Find the command that some arguments name.
pub fn command(arguments: &[String]) -> (command: Command)
    ensures
        command == command_of(texts(arguments@)),
{
    let count: usize = arguments.len();
    if count == 0 {
        return Command::Help;
    }
    assert(texts(arguments@)[0] == arguments@[0]@);
    let first = arguments[0].as_str();
    if count == 1 {
        if same_text(first, "--help") || same_text(first, "-h") {
            return Command::Help;
        }
        if same_text(first, "--version") || same_text(first, "-V") {
            return Command::Version;
        }
    }
    let second: &str = if count >= 2 {
        assert(texts(arguments@)[1] == arguments@[1]@);
        arguments[1].as_str()
    } else {
        ""
    };
    if count >= 2 && same_text(first, "plan") && same_text(second, "--json") {
        return Command::Plan;
    }
    if same_text(first, "rewrite") {
        return Command::Rewrite;
    }
    if same_text(first, "run") {
        return Command::Run;
    }
    if same_text(first, "config") {
        return Command::Config;
    }
    if same_text(first, "rules") {
        return Command::Rules;
    }
    if same_text(first, "search") {
        return Command::Search;
    }
    if same_text(first, "read") {
        return Command::Read;
    }
    if count == 1 && same_text(first, "result-reduce") {
        return Command::ResultReduce;
    }
    if count < 2 || !same_text(first, "archive") {
        return Command::Invalid;
    }
    if count == 2 && same_text(second, "stats") {
        return Command::ArchiveStats;
    }
    if count == 2 && same_text(second, "verify") {
        return Command::ArchiveVerify;
    }
    if count == 2 && same_text(second, "ingest") {
        return Command::ArchiveIngest;
    }
    if count == 2 && same_text(second, "broker") {
        return Command::ArchiveBroker;
    }
    if same_text(second, "restore") {
        return Command::ArchiveRestore;
    }
    if count == 4 && same_text(second, "prune") {
        assert(texts(arguments@)[2] == arguments@[2]@);
        if same_text(arguments[2].as_str(), "--before") {
            return Command::ArchivePrune;
        }
    }
    Command::Invalid
}

/// A command for the configuration.
#[derive(Clone, Copy, Debug, PartialEq, Eq, Structural)]
pub enum ConfigCommand {
    Help,
    Path,
    Init,
    Show,
    ShowJson,
    GetField,
    SetField,
    UnsetField,
    Check,
    Invalid,
}

/// The command for the configuration that some arguments name.
pub open spec fn config_command_of(arguments: Seq<Seq<char>>) -> ConfigCommand {
    let first = arguments[0];
    if arguments.len() == 0 {
        ConfigCommand::Help
    } else if arguments.len() == 1 {
        if first == "--help"@ || first == "-h"@ {
            ConfigCommand::Help
        } else if first == "path"@ {
            ConfigCommand::Path
        } else if first == "init"@ {
            ConfigCommand::Init
        } else if first == "show"@ {
            ConfigCommand::Show
        } else if first == "check"@ {
            ConfigCommand::Check
        } else {
            ConfigCommand::Invalid
        }
    } else if arguments.len() == 2 && first == "show"@ && arguments[1] == "--json"@ {
        ConfigCommand::ShowJson
    } else if arguments.len() == 2 && first == "get"@ {
        ConfigCommand::GetField
    } else if first == "set"@ {
        ConfigCommand::SetField
    } else if arguments.len() == 2 && first == "unset"@ {
        ConfigCommand::UnsetField
    } else {
        ConfigCommand::Invalid
    }
}

/// Find the command for the configuration that some arguments name.
pub fn config_command(arguments: &[String]) -> (command: ConfigCommand)
    ensures
        command == config_command_of(texts(arguments@)),
{
    let count: usize = arguments.len();
    if count == 0 {
        return ConfigCommand::Help;
    }
    assert(texts(arguments@)[0] == arguments@[0]@);
    let first = arguments[0].as_str();
    if count == 1 {
        return if same_text(first, "--help") || same_text(first, "-h") {
            ConfigCommand::Help
        } else if same_text(first, "path") {
            ConfigCommand::Path
        } else if same_text(first, "init") {
            ConfigCommand::Init
        } else if same_text(first, "show") {
            ConfigCommand::Show
        } else if same_text(first, "check") {
            ConfigCommand::Check
        } else {
            ConfigCommand::Invalid
        };
    }
    assert(texts(arguments@)[1] == arguments@[1]@);
    if count == 2 && same_text(first, "show") && same_text(arguments[1].as_str(), "--json") {
        return ConfigCommand::ShowJson;
    }
    if count == 2 && same_text(first, "get") {
        return ConfigCommand::GetField;
    }
    if same_text(first, "set") {
        return ConfigCommand::SetField;
    }
    if count == 2 && same_text(first, "unset") {
        return ConfigCommand::UnsetField;
    }
    ConfigCommand::Invalid
}

/// Whether a command asks for the bundled skill.
pub fn asks_for_skill(arguments: &[String]) -> (asks: bool)
    ensures
        asks == (arguments@.len() >= 2 && arguments@[1]@ == "--skill"@),
{
    arguments.len() >= 2 && same_text(arguments[1].as_str(), "--skill")
}

/// A figure as a line.
pub open spec fn figure(name: Seq<char>, value: int) -> Seq<char> {
    name + signed_digits(value)
}

/// The figures of an archive as lines.
pub open spec fn stats_lines_of(stats: ArchiveStats) -> Seq<Seq<char>> {
    let fixed = seq![
        figure("sessions: "@, stats.sessions as int),
        figure("calls: "@, stats.calls as int),
        figure("incomplete_calls: "@, stats.incomplete_calls as int),
        figure("logical_payload_bytes: "@, stats.logical_payload_bytes as int),
        figure("stored_payload_bytes: "@, stats.stored_payload_bytes as int),
        figure("database_bytes: "@, stats.database_bytes as int),
    ];
    let oldest = match stats.oldest_call_ms {
        Some(at) => seq![figure("oldest_call_ms: "@, at as int)],
        None => Seq::empty(),
    };
    let newest = match stats.newest_call_ms {
        Some(at) => seq![figure("newest_call_ms: "@, at as int)],
        None => Seq::empty(),
    };
    fixed + oldest + newest
}

/// Show the figures of an archive.
pub fn stats_lines(stats: &ArchiveStats) -> (lines: Vec<String>)
    ensures
        texts(lines@) == stats_lines_of(*stats),
{
    let mut lines: Vec<String> = Vec::new();
    lines.push(join2("sessions: ", signed_decimal(stats.sessions).as_str()));
    lines.push(join2("calls: ", signed_decimal(stats.calls).as_str()));
    lines.push(join2("incomplete_calls: ", signed_decimal(stats.incomplete_calls).as_str()));
    lines.push(
        join2("logical_payload_bytes: ", signed_decimal(stats.logical_payload_bytes).as_str()),
    );
    lines.push(
        join2("stored_payload_bytes: ", signed_decimal(stats.stored_payload_bytes).as_str()),
    );
    lines.push(join2("database_bytes: ", decimal(stats.database_bytes).as_str()));
    if let Some(at) = stats.oldest_call_ms {
        lines.push(join2("oldest_call_ms: ", signed_decimal(at).as_str()));
    }
    if let Some(at) = stats.newest_call_ms {
        lines.push(join2("newest_call_ms: ", signed_decimal(at).as_str()));
    }
    assert(texts(lines@) =~= stats_lines_of(*stats));
    lines
}

/// How the check of an archive ends.
pub fn verify_exit(report: &VerifyReport) -> (code: i32)
    ensures
        code == if report.errors@.len() == 0 {
            0i32
        } else {
            65i32
        },
{
    if report.errors.len() == 0 {
        0
    } else {
        65
    }
}

} // verus!
