//! The data model of a rule pack and the commands that a rule applies to.
use vstd::prelude::*;

use crate::text::{is_one_of, list_contains, same_text, starts_with};

verus! {

/// The only source schema that this library reads.
pub const SOURCE_SCHEMA_VERSION: u32 = 1;

/// The version of the contract between compiled packs and the reduction engine.
pub const ENGINE_ABI_VERSION: u16 = 1;

/// The list of rule files that make up a pack.
#[derive(Clone, Debug)]
pub struct PackManifest {
    pub schema_version: u32,
    pub id: String,
    pub rules: Vec<String>,
}

/// One rule: which commands it covers and what happens to their output.
#[derive(Clone, Debug)]
pub struct Rule {
    pub id: String,
    pub matcher: CommandMatcher,
    pub action: Action,
    pub transform: Option<Transform>,
    pub reducer: Option<Reducer>,
    pub success: Option<OutputPolicy>,
    pub failure: Option<OutputPolicy>,
}

/// The commands that a rule covers.
#[derive(Clone, Debug)]
pub struct CommandMatcher {
    pub program: Vec<String>,
    pub argv_prefix: Vec<String>,
    pub argv_contains_all: Vec<String>,
}

/// What a rule does with the output of a command.
#[derive(Clone, Copy, Debug, PartialEq, Eq, Structural)]
pub enum Action {
    Reduce,
    Transform,
    Passthrough,
}

/// How a rule rewrites lines that another rule then reduces.
#[derive(Clone, Copy, Debug, PartialEq, Eq, Structural)]
pub enum Transform {
    LinePreserving,
}

/// How a rule classifies the lines that it reduces.
#[derive(Clone, Debug)]
pub enum Reducer {
    SearchSummary,
    DiffSummary,
    TestSummary,
    BuildSummary,
    LogSummary,
    StatusSummary,
    ListSummary,
    LineFilter { strip_ansi: bool, drop: Vec<LinePattern>, keep: Vec<LinePattern> },
}

/// A literal pattern over one line.
#[derive(Clone, Debug)]
pub struct LinePattern {
    pub kind: PatternKind,
    pub value: String,
    pub case: PatternCase,
    pub trim: PatternTrim,
}

/// Where a pattern has to stand in a line.
#[derive(Clone, Copy, Debug, PartialEq, Eq, Structural)]
pub enum PatternKind {
    Exact,
    Prefix,
    Suffix,
    Contains,
}

/// Whether a pattern distinguishes ASCII case.
#[derive(Clone, Copy, Debug, PartialEq, Eq, Structural)]
pub enum PatternCase {
    Sensitive,
    AsciiInsensitive,
}

/// Which blanks a line loses before it is compared with a pattern.
#[derive(Clone, Copy, Debug, PartialEq, Eq, Structural)]
pub enum PatternTrim {
    Untrimmed,
    Start,
    Both,
}

/// The budgets that bound a reduction.
#[derive(Clone, Copy, Debug, PartialEq, Eq, Structural)]
pub struct OutputPolicy {
    pub max_line_bytes: usize,
    pub max_output_bytes: usize,
    pub min_savings_bytes: usize,
    pub min_savings_basis_points: u16,
}

/// The contents of a [`Reducer`].
#[verifier::ext_equal]
pub enum ReducerModel {
    SearchSummary,
    DiffSummary,
    TestSummary,
    BuildSummary,
    LogSummary,
    StatusSummary,
    ListSummary,
    LineFilter { strip_ansi: bool, drop: Seq<LinePattern>, keep: Seq<LinePattern> },
}

impl View for Reducer {
    type V = ReducerModel;

    open spec fn view(&self) -> ReducerModel {
        match self {
            Reducer::SearchSummary => ReducerModel::SearchSummary,
            Reducer::DiffSummary => ReducerModel::DiffSummary,
            Reducer::TestSummary => ReducerModel::TestSummary,
            Reducer::BuildSummary => ReducerModel::BuildSummary,
            Reducer::LogSummary => ReducerModel::LogSummary,
            Reducer::StatusSummary => ReducerModel::StatusSummary,
            Reducer::ListSummary => ReducerModel::ListSummary,
            Reducer::LineFilter { strip_ansi, drop, keep } => ReducerModel::LineFilter {
                strip_ansi: *strip_ansi,
                drop: drop@,
                keep: keep@,
            },
        }
    }
}

/// The contents of a [`CommandMatcher`].
#[verifier::ext_equal]
pub struct MatcherModel {
    pub program: Seq<Seq<char>>,
    pub argv_prefix: Seq<Seq<char>>,
    pub argv_contains_all: Seq<Seq<char>>,
}

impl View for CommandMatcher {
    type V = MatcherModel;

    open spec fn view(&self) -> MatcherModel {
        MatcherModel {
            program: crate::text::texts(self.program@),
            argv_prefix: crate::text::texts(self.argv_prefix@),
            argv_contains_all: crate::text::texts(self.argv_contains_all@),
        }
    }
}

/// The contents of a [`Rule`].
#[verifier::ext_equal]
pub struct RuleModel {
    pub id: Seq<char>,
    pub matcher: MatcherModel,
    pub action: Action,
    pub transform: Option<Transform>,
    pub reducer: Option<ReducerModel>,
    pub success: Option<OutputPolicy>,
    pub failure: Option<OutputPolicy>,
}

impl View for Rule {
    type V = RuleModel;

    open spec fn view(&self) -> RuleModel {
        RuleModel {
            id: self.id@,
            matcher: self.matcher@,
            action: self.action,
            transform: self.transform,
            reducer: match self.reducer {
                Some(reducer) => Some(reducer@),
                None => None,
            },
            success: self.success,
            failure: self.failure,
        }
    }
}

impl LinePattern {
    /// An equal pattern.
    pub fn duplicate(&self) -> (pattern: LinePattern)
        ensures
            pattern == *self,
    {
        LinePattern {
            kind: self.kind,
            value: self.value.clone(),
            case: self.case,
            trim: self.trim,
        }
    }
}

fn duplicate_patterns(patterns: &Vec<LinePattern>) -> (copies: Vec<LinePattern>)
    ensures
        copies@ == patterns@,
{
    let mut copies: Vec<LinePattern> = Vec::new();
    let mut i: usize = 0;
    while i < patterns.len()
        invariant
            i <= patterns.len(),
            copies@ =~= patterns@.take(i as int),
        decreases patterns.len() - i,
    {
        copies.push(patterns[i].duplicate());
        i += 1;
    }
    assert(patterns@.take(patterns@.len() as int) =~= patterns@);
    copies
}

impl Reducer {
    /// An equal reducer.
    pub fn duplicate(&self) -> (reducer: Reducer)
        ensures
            reducer@ == self@,
    {
        match self {
            Reducer::SearchSummary => Reducer::SearchSummary,
            Reducer::DiffSummary => Reducer::DiffSummary,
            Reducer::TestSummary => Reducer::TestSummary,
            Reducer::BuildSummary => Reducer::BuildSummary,
            Reducer::LogSummary => Reducer::LogSummary,
            Reducer::StatusSummary => Reducer::StatusSummary,
            Reducer::ListSummary => Reducer::ListSummary,
            Reducer::LineFilter { strip_ansi, drop, keep } => Reducer::LineFilter {
                strip_ansi: *strip_ansi,
                drop: duplicate_patterns(drop),
                keep: duplicate_patterns(keep),
            },
        }
    }
}

impl Rule {
    /// An equal rule.
    pub fn duplicate(&self) -> (rule: Rule)
        ensures
            rule@ == self@,
    {
        Rule {
            id: self.id.clone(),
            matcher: CommandMatcher {
                program: self.matcher.program.clone(),
                argv_prefix: self.matcher.argv_prefix.clone(),
                argv_contains_all: self.matcher.argv_contains_all.clone(),
            },
            action: self.action,
            transform: self.transform,
            reducer: match &self.reducer {
                Some(reducer) => Some(reducer.duplicate()),
                None => None,
            },
            success: self.success,
            failure: self.failure,
        }
    }
}

impl Default for PatternCase {
    fn default() -> (case: Self)
        ensures
            case == PatternCase::Sensitive,
    {
        PatternCase::Sensitive
    }
}

impl Default for PatternTrim {
    fn default() -> (trim: Self)
        ensures
            trim == PatternTrim::Untrimmed,
    {
        PatternTrim::Untrimmed
    }
}

/// A program-level option that is followed by its value.
pub open spec fn takes_value(program: Seq<char>, argument: Seq<char>) -> bool {
    if program == "git"@ {
        crate::text::one_of(argument, seq!["-C", "-c", "--git-dir", "--work-tree"])
    } else if program == "npm"@ {
        crate::text::one_of(argument, seq!["--prefix", "-w", "--workspace"])
    } else if crate::text::one_of(program, seq!["pnpm", "yarn", "bun"]) {
        crate::text::one_of(argument, seq!["-C", "--dir", "--filter"])
    } else if program == "uv"@ {
        argument == "--project"@
    } else if program == "gh"@ {
        crate::text::one_of(argument, seq!["-R", "--repo"])
    } else {
        false
    }
}

/// A program-level option that stands alone.
pub open spec fn stands_alone(program: Seq<char>, argument: Seq<char>) -> bool {
    if program == "git"@ {
        ||| crate::text::opens_with(argument, "--git-dir="@)
        ||| crate::text::opens_with(argument, "--work-tree="@)
        ||| crate::text::one_of(
            argument,
            seq![
                "--no-pager",
                "--paginate",
                "--literal-pathspecs",
                "--glob-pathspecs",
                "--noglob-pathspecs",
            ],
        )
    } else if program == "npm"@ {
        ||| crate::text::opens_with(argument, "--prefix="@)
        ||| crate::text::opens_with(argument, "--workspace="@)
        ||| crate::text::one_of(argument, seq!["--workspaces", "-ws", "-s", "--silent"])
    } else if crate::text::one_of(program, seq!["pnpm", "yarn", "bun"]) {
        ||| crate::text::opens_with(argument, "--dir="@)
        ||| crate::text::opens_with(argument, "--filter="@)
        ||| crate::text::one_of(
            argument,
            seq![
                "-r",
                "--recursive",
                "-w",
                "--workspace-root",
                "--parallel",
                "--stream",
                "--aggregate-output",
                "-s",
                "--silent",
            ],
        )
    } else if program == "uv"@ {
        crate::text::opens_with(argument, "--project="@)
    } else if program == "gh"@ {
        crate::text::opens_with(argument, "--repo="@)
    } else if program == "cargo"@ {
        crate::text::opens_with(argument, "+"@) && argument.len() > 1
    } else {
        false
    }
}

/// The position after the program-level options from `index` on; `None` where an option
/// that takes a value comes last.
pub open spec fn options_end(program: Seq<char>, arguments: Seq<Seq<char>>, index: int) -> Option<
    int,
>
    decreases arguments.len() - index,
{
    if index < 0 || index >= arguments.len() {
        Some(index)
    } else if takes_value(program, arguments[index]) {
        if index + 1 >= arguments.len() {
            None
        } else {
            options_end(program, arguments, index + 2)
        }
    } else if stands_alone(program, arguments[index]) {
        options_end(program, arguments, index + 1)
    } else {
        Some(index)
    }
}

/// The arguments of a command without the program-level options in front.
pub open spec fn normalized(program: Seq<char>, arguments: Seq<Seq<char>>) -> Seq<Seq<char>> {
    match options_end(program, arguments, 0) {
        Some(index) => arguments.subrange(index, arguments.len() as int),
        None => arguments,
    }
}

/// `argument` is a bundle of short options that holds the short option `required`.
pub open spec fn bundles_short_option(argument: Seq<u8>, required: Seq<u8>) -> bool {
    &&& required.len() == 2
    &&& required[0] == 45
    &&& required[1] != 45
    &&& argument.len() > 2
    &&& argument[0] == 45
    &&& argument[1] != 45
    &&& argument.subrange(1, argument.len() as int).contains(required[1])
}

/// `argument` gives the option or word `required`.
pub open spec fn gives_argument(argument: Seq<char>, required: Seq<char>) -> bool {
    ||| argument == required
    ||| crate::text::opens_with(required, "--"@) && crate::text::opens_with(
        argument,
        required + "="@,
    )
    ||| bundles_short_option(
        vstd::utf8::encode_utf8(argument),
        vstd::utf8::encode_utf8(required),
    )
}

/// `tail` begins with the words of `prefix`.
pub open spec fn words_open_with(tail: Seq<Seq<char>>, prefix: Seq<Seq<char>>) -> bool {
    prefix.len() <= tail.len() && tail.subrange(0, prefix.len() as int) == prefix
}

/// One of the words of `tail` gives `required`.
pub open spec fn some_word_gives(tail: Seq<Seq<char>>, required: Seq<char>) -> bool {
    exists|i: int| 0 <= i < tail.len() && gives_argument(#[trigger] tail[i], required)
}

impl MatcherModel {
    /// The matcher covers a command line: its program is listed, and the rest of the line,
    /// without program-level options, begins with the prefix and gives each required word.
    pub open spec fn covers(self, arguments: Seq<Seq<char>>) -> bool {
        &&& arguments.len() > 0
        &&& self.program.contains(arguments[0])
        &&& {
            let tail = normalized(
                arguments[0],
                arguments.subrange(1, arguments.len() as int),
            );
            &&& words_open_with(tail, self.argv_prefix)
            &&& forall|i: int|
                0 <= i < self.argv_contains_all.len() ==> some_word_gives(
                    tail,
                    #[trigger] self.argv_contains_all[i],
                )
        }
    }
}

impl CommandMatcher {
    /// The matcher covers a command line.
    pub open spec fn covers(&self, arguments: Seq<Seq<char>>) -> bool {
        self@.covers(arguments)
    }

    /// Whether the rule applies to a command line.
    #[verifier::loop_isolation(false)]
    pub fn matches(&self, arguments: &[String]) -> (matched: bool)
        ensures
            matched == self.covers(crate::text::texts(arguments@)),
    {
        if arguments.len() == 0 {
            return false;
        }
        let program = &arguments[0];
        if !list_contains(self.program.as_slice(), program.as_str()) {
            return false;
        }
        let rest: &[String] = &arguments[1..arguments.len()];
        let tail = normalized_arguments(program.as_str(), rest);
        let ghost words = crate::text::texts(tail@);
        proof {
            assert(crate::text::texts(rest@) =~= crate::text::texts(arguments@).subrange(
                1,
                arguments@.len() as int,
            ));
            assert(crate::text::texts(arguments@)[0] == program@);
        }
        if self.argv_prefix.len() > tail.len() {
            return false;
        }
        let opening: &[String] = &tail[0..self.argv_prefix.len()];
        assert(crate::text::texts(opening@) =~= words.subrange(
            0,
            self.argv_prefix@.len() as int,
        ));
        if !crate::text::same_texts(opening, self.argv_prefix.as_slice()) {
            return false;
        }
        let mut i: usize = 0;
        while i < self.argv_contains_all.len()
            invariant
                i <= self.argv_contains_all.len(),
                words == crate::text::texts(tail@),
                forall|j: int|
                    0 <= j < i ==> some_word_gives(words, #[trigger] self@.argv_contains_all[j]),
            decreases self.argv_contains_all.len() - i,
        {
            assert(self@.argv_contains_all[i as int] == self.argv_contains_all@[i as int]@);
            if !any_gives(tail, self.argv_contains_all[i].as_str()) {
                return false;
            }
            i += 1;
        }
        true
    }
}

fn any_gives(tail: &[String], required: &str) -> (found: bool)
    ensures
        found == some_word_gives(crate::text::texts(tail@), required@),
{
    let ghost words = crate::text::texts(tail@);
    let mut i: usize = 0;
    while i < tail.len()
        invariant
            i <= tail.len(),
            words == crate::text::texts(tail@),
            forall|j: int| 0 <= j < i ==> !gives_argument(#[trigger] words[j], required@),
        decreases tail.len() - i,
    {
        assert(words[i as int] == tail@[i as int]@);
        if contains_normalized_argument(tail[i].as_str(), required) {
            return true;
        }
        i += 1;
    }
    false
}

fn contains_normalized_argument(argument: &str, required: &str) -> (found: bool)
    ensures
        found == gives_argument(argument@, required@),
{
    if same_text(argument, required) {
        return true;
    }
    if starts_with(required, "--") {
        let assignment = crate::text::join2(required, "=");
        if starts_with(argument, assignment.as_str()) {
            return true;
        }
    }
    contains_short_option(argument, required)
}

#[verifier::loop_isolation(false)]
fn contains_short_option(argument: &str, required: &str) -> (found: bool)
    ensures
        found == bundles_short_option(
            vstd::utf8::encode_utf8(argument@),
            vstd::utf8::encode_utf8(required@),
        ),
{
    let required: &[u8] = required.as_bytes();
    let argument: &[u8] = argument.as_bytes();
    if !(required.len() == 2 && required[0] == 45 && required[1] != 45 && argument.len() > 2
        && argument[0] == 45 && argument[1] != 45) {
        return false;
    }
    let mut i: usize = 1;
    while i < argument.len()
        invariant
            1 <= i <= argument.len(),
            required.len() == 2,
            forall|j: int| 1 <= j < i ==> argument@[j] != required@[1],
        decreases argument.len() - i,
    {
        if argument[i] == required[1] {
            assert(argument@.subrange(1, argument@.len() as int)[i - 1] == required@[1]);
            return true;
        }
        i += 1;
    }
    false
}

fn option_takes_value(program: &str, argument: &str) -> (found: bool)
    ensures
        found == takes_value(program@, argument@),
{
    if same_text(program, "git") {
        is_one_of(argument, &["-C", "-c", "--git-dir", "--work-tree"])
    } else if same_text(program, "npm") {
        is_one_of(argument, &["--prefix", "-w", "--workspace"])
    } else if is_one_of(program, &["pnpm", "yarn", "bun"]) {
        is_one_of(argument, &["-C", "--dir", "--filter"])
    } else if same_text(program, "uv") {
        same_text(argument, "--project")
    } else if same_text(program, "gh") {
        is_one_of(argument, &["-R", "--repo"])
    } else {
        false
    }
}

fn option_stands_alone(program: &str, argument: &str) -> (found: bool)
    ensures
        found == stands_alone(program@, argument@),
{
    if same_text(program, "git") {
        starts_with(argument, "--git-dir=") || starts_with(argument, "--work-tree=")
            || is_one_of(
            argument,
            &[
                "--no-pager",
                "--paginate",
                "--literal-pathspecs",
                "--glob-pathspecs",
                "--noglob-pathspecs",
            ],
        )
    } else if same_text(program, "npm") {
        starts_with(argument, "--prefix=") || starts_with(argument, "--workspace=") || is_one_of(
            argument,
            &["--workspaces", "-ws", "-s", "--silent"],
        )
    } else if is_one_of(program, &["pnpm", "yarn", "bun"]) {
        starts_with(argument, "--dir=") || starts_with(argument, "--filter=") || is_one_of(
            argument,
            &[
                "-r",
                "--recursive",
                "-w",
                "--workspace-root",
                "--parallel",
                "--stream",
                "--aggregate-output",
                "-s",
                "--silent",
            ],
        )
    } else if same_text(program, "uv") {
        starts_with(argument, "--project=")
    } else if same_text(program, "gh") {
        starts_with(argument, "--repo=")
    } else if same_text(program, "cargo") {
        starts_with(argument, "+") && crate::text::chars(argument).len() > 1
    } else {
        false
    }
}

/// The arguments of a command without the program-level options in front.
fn normalized_arguments<'a>(program: &str, arguments: &'a [String]) -> (tail: &'a [String])
    ensures
        crate::text::texts(tail@) == normalized(program@, crate::text::texts(arguments@)),
{
    let ghost words = crate::text::texts(arguments@);
    let mut index: usize = 0;
    while index < arguments.len()
        invariant
            index <= arguments.len(),
            words == crate::text::texts(arguments@),
            options_end(program@, words, 0) == options_end(program@, words, index as int),
        ensures
            options_end(program@, words, 0) == Some(index as int),
            index <= arguments.len(),
        decreases arguments.len() - index,
    {
        let argument = arguments[index].as_str();
        assert(words[index as int] == argument@);
        if option_takes_value(program, argument) {
            if arguments.len() - index <= 1 {
                return arguments;
            }
            index += 2;
            continue ;
        }
        if option_stands_alone(program, argument) {
            index += 1;
            continue ;
        }
        break ;
    }
    let tail: &'a [String] = &arguments[index..arguments.len()];
    assert(crate::text::texts(tail@) =~= words.subrange(index as int, words.len() as int));
    tail
}

} // verus!
