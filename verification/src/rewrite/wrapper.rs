//! Plans for the execution of one simple command.
use vstd::prelude::*;

use crate::digest::{digest_hex, hex_text};
use crate::rules::registry::{Registry, all_matches, reference_models, selection_fault};
use crate::rules::{
    PackReference, ReferenceModel, SelectedModel, SelectedRule, Selection, SelectionModel, resolved,
};
use crate::shell::lexer::{LexModel, Quote, TokenModel, lexed, nothing_read, tokens_of};
use crate::shell::parser::{parse_simple_words, simple_words};
use crate::text::{chars, from_chars, is_one_of, one_of, same_text, texts};

verus! {

/// The archived call that the output of a command belongs to.
#[derive(Clone, Copy, Debug)]
pub struct ArchiveCommandRef<'a> {
    pub agent: &'a str,
    pub account: &'a str,
    pub session_id: &'a str,
    pub call_id: &'a str,
}

/// How a command is executed and how its result is handled.
#[derive(Clone, Debug)]
pub struct ShellPlan {
    pub version: u32,
    pub execution: ExecutionPlan,
    pub result: ResultPolicy,
}

/// Which command is executed.
#[derive(Clone, Debug, PartialEq, Eq)]
pub enum ExecutionPlan {
    Original,
    Rewrite { command: String },
}

/// How the result of a command is handled.
#[derive(Clone, Copy, Debug, PartialEq, Eq, Structural)]
pub enum ResultPolicy {
    Ordinary,
    Recovery,
}

/// The contents of a [`ShellPlan`]: the command that replaces the given one, if any.
#[verifier::ext_equal]
pub struct PlanModel {
    pub version: u32,
    pub rewritten: Option<Seq<char>>,
    pub result: ResultPolicy,
}

impl View for ShellPlan {
    type V = PlanModel;

    open spec fn view(&self) -> PlanModel {
        PlanModel {
            version: self.version,
            rewritten: match self.execution {
                ExecutionPlan::Original => None,
                ExecutionPlan::Rewrite { command } => Some(command@),
            },
            result: self.result,
        }
    }
}

/// A character with the Unicode property `White_Space`.
pub open spec fn is_white_space(c: char) -> bool {
    ||| '\u{9}' <= c <= '\u{d}'
    ||| c == ' ' || c == '\u{85}' || c == '\u{a0}' || c == '\u{1680}'
    ||| '\u{2000}' <= c <= '\u{200a}'
    ||| c == '\u{2028}' || c == '\u{2029}' || c == '\u{202f}' || c == '\u{205f}' || c == '\u{3000}'
}

/// The text without white space in front.
pub open spec fn trimmed_start(text: Seq<char>) -> Seq<char>
    decreases text.len(),
{
    if text.len() > 0 && is_white_space(text[0]) {
        trimmed_start(text.drop_first())
    } else {
        text
    }
}

/// The text without white space at its end.
pub open spec fn trimmed_end(text: Seq<char>) -> Seq<char>
    decreases text.len(),
{
    if text.len() > 0 && is_white_space(text.last()) {
        trimmed_end(text.drop_last())
    } else {
        text
    }
}

/// The text without white space around it.
pub open spec fn trimmed(text: Seq<char>) -> Seq<char> {
    trimmed_end(trimmed_start(text))
}

/// The text between single quotes that stands for a value.
pub open spec fn quoted_body(value: Seq<char>) -> Seq<char>
    decreases value.len(),
{
    if value.len() == 0 {
        Seq::empty()
    } else if value.last() == '\'' {
        quoted_body(value.drop_last()) + seq!['\'', '\\', '\'', '\'']
    } else {
        quoted_body(value.drop_last()).push(value.last())
    }
}

/// A value as one word of a shell command.
pub open spec fn shell_quoted(value: Seq<char>) -> Seq<char> {
    seq!['\''] + quoted_body(value) + seq!['\'']
}

/// The lexer between single quotes, where some of a word was read.
pub open spec fn inside_quotes(word: Seq<char>) -> LexModel {
    LexModel { tokens: Seq::empty(), word: Some(word), is_quoted: true, quote: Quote::Single }
}

pub proof fn lemma_body_is_read(value: Seq<char>, rest: Seq<char>)
    ensures
        ({
            let text = seq!['\''] + quoted_body(value) + rest;
            lexed(text, 1, inside_quotes(Seq::empty())) == lexed(
                text,
                1 + quoted_body(value).len() as int,
                inside_quotes(value),
            )
        }),
    decreases value.len(),
{
    let text = seq!['\''] + quoted_body(value) + rest;
    if value.len() == 0 {
        assert(value =~= Seq::empty());
    } else {
        let front = value.drop_last();
        let c = value.last();
        let piece = if c == '\'' {
            seq!['\'', '\\', '\'', '\'']
        } else {
            seq![c]
        };
        assert(text =~= seq!['\''] + quoted_body(front) + (piece + rest));
        lemma_body_is_read(front, piece + rest);
        let at = 1 + quoted_body(front).len() as int;
        let before = inside_quotes(front);
        assert(value =~= front.push(c));
        assert(text[at] == piece[0]);
        if c == '\'' {
            assert(text[at + 1] == '\\' && text[at + 2] == '\'' && text[at + 3] == '\'');
            let bare = LexModel { quote: Quote::Bare, ..before };
            assert(lexed(text, at, before) == lexed(text, at + 1, bare));
            let escaped = LexModel { is_quoted: true, ..bare.with('\'') };
            assert(lexed(text, at + 1, bare) == lexed(text, at + 3, escaped));
            assert(lexed(text, at + 3, escaped) == lexed(
                text,
                at + 4,
                escaped.quoting(Quote::Single),
            ));
            assert(escaped.quoting(Quote::Single) =~= inside_quotes(value));
        } else {
            assert(before.with(c) =~= inside_quotes(value));
            assert(lexed(text, at, before) == lexed(text, at + 1, before.with(c)));
        }
    }
}

/// A quoted value is read as one word, which is that value.
pub proof fn lemma_quote_round_trip(value: Seq<char>)
    ensures
        tokens_of(shell_quoted(value)) == Some(seq![TokenModel::Word(value)]),
        simple_words(shell_quoted(value)) == Some(seq![value]),
{
    let text = shell_quoted(value);
    let close = seq!['\''];
    lemma_body_is_read(value, close);
    assert(text[0] == '\'');
    assert(nothing_read().quoting(Quote::Single) =~= inside_quotes(Seq::empty()));
    assert(lexed(text, 0, nothing_read()) == lexed(text, 1, inside_quotes(Seq::empty())));
    let last = 1 + quoted_body(value).len() as int;
    assert(text[last] == '\'');
    let bare = LexModel { quote: Quote::Bare, ..inside_quotes(value) };
    assert(lexed(text, last, inside_quotes(value)) == lexed(text, last + 1, bare));
    assert(bare.ended().tokens =~= seq![TokenModel::Word(value)]);
    let tokens = seq![TokenModel::Word(value)];
    assert(tokens.map_values(|token: TokenModel| token->Word_0) =~= seq![value]);
}

/// A query of the archive, whose output is never reduced.
pub open spec fn is_recovery(words: Seq<Seq<char>>) -> bool {
    &&& words.len() >= 2
    &&& words[0] == "yarp"@
    &&& one_of(words[1], seq!["search", "read"])
    &&& forall|i: int|
        2 <= i < words.len() ==> !one_of(#[trigger] words[i], seq!["--help", "-h"])
}

/// The options of a wrapper that name an external pack.
pub open spec fn reference_options(reference: ReferenceModel) -> Seq<char> {
    " --rule-pack "@ + shell_quoted(reference.path) + " --rule-pack-digest "@ + shell_quoted(
        hex_text(reference.source_digest),
    ) + " --rule-pack-compiled-digest "@ + shell_quoted(hex_text(reference.compiled_digest))
}

/// The options of a wrapper that name the first `count` external packs.
pub open spec fn pack_options(references: Seq<ReferenceModel>, count: nat) -> Seq<char>
    decreases count,
{
    if count == 0 {
        Seq::empty()
    } else {
        pack_options(references, (count - 1) as nat) + reference_options(references[count - 1])
    }
}

/// The options of a wrapper that name the archived call.
pub open spec fn archive_options(archive: Option<ArchiveCommandRef<'_>>) -> Seq<char> {
    match archive {
        None => Seq::empty(),
        Some(reference) => " --archive-agent "@ + shell_quoted(reference.agent@)
            + " --archive-account "@ + shell_quoted(reference.account@) + " --archive-session "@
            + shell_quoted(reference.session_id@) + " --archive-call "@ + shell_quoted(
            reference.call_id@,
        ),
    }
}

/// The command that runs another one and reduces its output.
pub open spec fn wrapped(
    command: Seq<char>,
    archive: Option<ArchiveCommandRef<'_>>,
    references: Seq<ReferenceModel>,
    selected: SelectedModel,
) -> Seq<char> {
    "yarp run --selected-pack "@ + shell_quoted(selected.pack_id) + " --selected-rule "@
        + shell_quoted(selected.rule.id) + " --selected-digest "@ + shell_quoted(
        hex_text(selected.source_digest),
    ) + pack_options(references, references.len()) + archive_options(archive) + " -- "@ + command
}

/// A plan that leaves a command as it is.
pub open spec fn unchanged(result: ResultPolicy) -> PlanModel {
    PlanModel { version: 1, rewritten: None, result }
}

/// What a selection makes of a command.
pub open spec fn plan_for(
    command: Seq<char>,
    archive: Option<ArchiveCommandRef<'_>>,
    references: Seq<ReferenceModel>,
    selection: SelectionModel,
) -> PlanModel {
    match selection {
        SelectionModel::Reduce(selected) => PlanModel {
            version: 1,
            rewritten: Some(wrapped(command, archive, references, selected)),
            result: ResultPolicy::Ordinary,
        },
        _ => unchanged(ResultPolicy::Ordinary),
    }
}

/// The plan for a command whose trimmed text has the given words.
pub open spec fn planned(
    command: Seq<char>,
    words: Option<Seq<Seq<char>>>,
    archive: Option<ArchiveCommandRef<'_>>,
    packs: Result<Registry, String>,
    contents: Seq<Result<Vec<u8>, String>>,
) -> Result<PlanModel, Seq<char>> {
    match words {
        None => Ok(unchanged(ResultPolicy::Ordinary)),
        Some(arguments) => {
            if is_recovery(arguments) {
                Ok(unchanged(ResultPolicy::Recovery))
            } else {
                match packs {
                    Err(error) => Err(error@),
                    Ok(registry) => {
                        let count = registry.external@.len();
                        if arguments.len() == 0 {
                            Ok(unchanged(ResultPolicy::Ordinary))
                        } else {
                            match selection_fault(registry, arguments[0], contents, count) {
                                Some(fault) => Err(fault),
                                None => Ok(
                                    plan_for(
                                        trimmed(command),
                                        archive,
                                        reference_models(registry.references@),
                                        resolved(all_matches(registry, arguments, count)),
                                    ),
                                ),
                            }
                        }
                    },
                }
            }
        },
    }
}

fn white_space(c: char) -> (found: bool)
    ensures
        found == is_white_space(c),
{
    ('\u{9}' <= c && c <= '\u{d}') || c == ' ' || c == '\u{85}' || c == '\u{a0}' || c == '\u{1680}'
        || ('\u{2000}' <= c && c <= '\u{200a}') || c == '\u{2028}' || c == '\u{2029}' || c
        == '\u{202f}' || c == '\u{205f}' || c == '\u{3000}'
}

/// The text without white space around it.
pub fn trim(text: &str) -> (result: String)
    ensures
        result@ == trimmed(text@),
{
    let characters = chars(text);
    let mut start: usize = 0;
    assert(text@.skip(0) =~= text@);
    while start < characters.len() && white_space(characters[start])
        invariant
            start <= characters.len(),
            characters@ == text@,
            trimmed_start(text@) == trimmed_start(text@.skip(start as int)),
        decreases characters.len() - start,
    {
        assert(text@.skip(start as int).drop_first() =~= text@.skip(start + 1));
        start += 1;
    }
    let ghost rest = text@.skip(start as int);
    assert(trimmed_start(text@) == rest);
    let mut end: usize = characters.len();
    assert(rest =~= text@.subrange(start as int, end as int));
    while end > start && white_space(characters[end - 1])
        invariant
            start <= end <= characters.len(),
            characters@ == text@,
            trimmed_end(rest) == trimmed_end(text@.subrange(start as int, end as int)),
        decreases end,
    {
        assert(text@.subrange(start as int, end as int).drop_last() =~= text@.subrange(
            start as int,
            end - 1,
        ));
        end -= 1;
    }
    from_chars(&characters.as_slice()[start..end])
}

/// Write a value as one word of a shell command.
pub fn shell_quote(value: &str) -> (word: String)
    ensures
        word@ == shell_quoted(value@),
{
    let characters = chars(value);
    let mut word = String::new();
    word.push('\'');
    let mut i: usize = 0;
    assert(word@ =~= seq!['\''] + quoted_body(value@.take(0)));
    while i < characters.len()
        invariant
            i <= characters.len(),
            characters@ == value@,
            word@ == seq!['\''] + quoted_body(value@.take(i as int)),
        decreases characters.len() - i,
    {
        proof {
            assert(value@.take(i + 1).drop_last() =~= value@.take(i as int));
        }
        if characters[i] == '\'' {
            word.push('\'');
            word.push('\\');
            word.push('\'');
            word.push('\'');
        } else {
            word.push(characters[i]);
        }
        assert(word@ =~= seq!['\''] + quoted_body(value@.take(i + 1)));
        i += 1;
    }
    assert(value@.take(value@.len() as int) =~= value@);
    word.push('\'');
    assert(word@ =~= shell_quoted(value@));
    word
}

/// Whether a command queries the archive.
pub fn is_recovery_command(words: &[String]) -> (found: bool)
    ensures
        found == is_recovery(texts(words@)),
{
    let ghost all = texts(words@);
    if words.len() < 2 {
        return false;
    }
    assert(all[0] == words@[0]@ && all[1] == words@[1]@);
    if !same_text(words[0].as_str(), "yarp") || !is_one_of(words[1].as_str(), &["search", "read"]) {
        return false;
    }
    let mut i: usize = 2;
    while i < words.len()
        invariant
            2 <= i <= words.len(),
            all == texts(words@),
            forall|j: int| 2 <= j < i ==> !one_of(#[trigger] all[j], seq!["--help", "-h"]),
        decreases words.len() - i,
    {
        assert(all[i as int] == words@[i as int]@);
        if is_one_of(words[i].as_str(), &["--help", "-h"]) {
            return false;
        }
        i += 1;
    }
    true
}

fn reference_text(reference: &PackReference) -> (text: String)
    ensures
        text@ == reference_options(reference@),
{
    let mut text = " --rule-pack ".to_owned();
    text.append(shell_quote(reference.path.as_str()).as_str());
    text.append(" --rule-pack-digest ");
    text.append(shell_quote(digest_hex(&reference.source_digest).as_str()).as_str());
    text.append(" --rule-pack-compiled-digest ");
    text.append(shell_quote(digest_hex(&reference.compiled_digest).as_str()).as_str());
    text
}

fn archive_text(archive: Option<ArchiveCommandRef<'_>>) -> (text: String)
    ensures
        text@ == archive_options(archive),
{
    match archive {
        None => {
            let text = String::new();
            assert(text@ =~= Seq::<char>::empty());
            text
        },
        Some(reference) => {
            let mut text = " --archive-agent ".to_owned();
            text.append(shell_quote(reference.agent).as_str());
            text.append(" --archive-account ");
            text.append(shell_quote(reference.account).as_str());
            text.append(" --archive-session ");
            text.append(shell_quote(reference.session_id).as_str());
            text.append(" --archive-call ");
            text.append(shell_quote(reference.call_id).as_str());
            text
        },
    }
}

fn pack_text(references: &[PackReference]) -> (text: String)
    ensures
        text@ == pack_options(reference_models(references@), references@.len()),
{
    let ghost models = reference_models(references@);
    let mut text = String::new();
    let mut i: usize = 0;
    assert(text@ =~= pack_options(models, 0));
    while i < references.len()
        invariant
            i <= references.len(),
            models == reference_models(references@),
            text@ == pack_options(models, i as nat),
        decreases references.len() - i,
    {
        assert(models[i as int] == references@[i as int]@);
        text.append(reference_text(&references[i]).as_str());
        i += 1;
    }
    text
}

/// The command that runs another one and reduces its output.
pub fn selected_wrapper(
    command: &str,
    archive: Option<ArchiveCommandRef<'_>>,
    references: &[PackReference],
    selected: &SelectedRule,
) -> (wrapper: String)
    ensures
        wrapper@ == wrapped(command@, archive, reference_models(references@), selected@),
{
    let mut wrapper = "yarp run --selected-pack ".to_owned();
    wrapper.append(shell_quote(selected.pack_id.as_str()).as_str());
    wrapper.append(" --selected-rule ");
    wrapper.append(shell_quote(selected.rule.rule().id.as_str()).as_str());
    wrapper.append(" --selected-digest ");
    wrapper.append(shell_quote(digest_hex(&selected.source_digest).as_str()).as_str());
    wrapper.append(pack_text(references).as_str());
    wrapper.append(archive_text(archive).as_str());
    wrapper.append(" -- ");
    wrapper.append(command);
    wrapper
}

fn original_plan(result: ResultPolicy) -> (plan: ShellPlan)
    ensures
        plan@ == unchanged(result),
{
    ShellPlan { version: 1, execution: ExecutionPlan::Original, result }
}

fn plan_selection(
    command: &str,
    archive: Option<ArchiveCommandRef<'_>>,
    references: &[PackReference],
    selection: Selection,
) -> (plan: ShellPlan)
    ensures
        plan@ == plan_for(trimmed(command@), archive, reference_models(references@), selection@),
{
    match selection {
        Selection::Reduce(selected) => {
            let text = trim(command);
            let wrapper = selected_wrapper(text.as_str(), archive, references, &selected);
            ShellPlan {
                version: 1,
                execution: ExecutionPlan::Rewrite { command: wrapper },
                result: ResultPolicy::Ordinary,
            }
        },
        _ => original_plan(ResultPolicy::Ordinary),
    }
}

/// The words of a command that was read; there are none where it was refused.
pub open spec fn read_words(words: Result<Vec<String>, String>) -> Option<Seq<Seq<char>>> {
    match words {
        Ok(list) => Some(texts(list@)),
        Err(_) => None,
    }
}

/// Plan the execution of a command and the handling of its result. `words` holds the words of the
/// trimmed command, `packs` the rules to select from, and `contents` the file of each external
/// pack as it is now.
///
/// # Errors
///
/// Returns an error when the configured packs could not be loaded or a rule cannot be selected
/// from them safely.
pub fn plan_words(
    command: &str,
    words: &Result<Vec<String>, String>,
    archive: Option<ArchiveCommandRef<'_>>,
    packs: &Result<Registry, String>,
    contents: &Vec<Result<Vec<u8>, String>>,
) -> (result: Result<ShellPlan, String>)
    requires
        packs matches Ok(registry) ==> registry.well_formed() && contents@.len()
            == registry.external@.len(),
    ensures
        match planned(command@, read_words(*words), archive, *packs, contents@) {
            Ok(model) => result matches Ok(plan) && plan@ == model,
            Err(fault) => result matches Err(error) && error@ == fault,
        },
{
    let arguments = match words {
        Ok(arguments) => arguments,
        Err(_) => {
            return Ok(original_plan(ResultPolicy::Ordinary));
        },
    };
    if is_recovery_command(arguments.as_slice()) {
        return Ok(original_plan(ResultPolicy::Recovery));
    }
    match packs {
        Err(error) => Err(error.clone()),
        Ok(registry) => {
            let selection = registry.select(arguments.as_slice(), contents)?;
            Ok(plan_selection(command, archive, registry.references(), selection))
        },
    }
}

/// Plan the execution of a command and the handling of its result.
///
/// # Errors
///
/// Returns an error when the packs could not be loaded or the command cannot be selected.
pub fn plan_with_options(
    command: &str,
    archive: Option<ArchiveCommandRef<'_>>,
    packs: &Result<Registry, String>,
    contents: &Vec<Result<Vec<u8>, String>>,
) -> (result: Result<ShellPlan, String>)
    requires
        command@.len() < usize::MAX - 4,
        packs matches Ok(registry) ==> registry.well_formed() && contents@.len()
            == registry.external@.len(),
    ensures
        match planned(command@, simple_words(trimmed(command@)), archive, *packs, contents@) {
            Ok(model) => result matches Ok(plan) && plan@ == model,
            Err(fault) => result matches Err(error) && error@ == fault,
        },
{
    let source = trim(command);
    proof {
        lemma_trimmed_is_short(command@);
    }
    let words = parse_simple_words(source.as_str());
    plan_words(command, &words, archive, packs, contents)
}

/// The command that replaces another one, if any.
///
/// # Errors
///
/// Returns the same errors as [`plan_with_options`].
pub fn rewrite_with_options(
    command: &str,
    archive: Option<ArchiveCommandRef<'_>>,
    packs: &Result<Registry, String>,
    contents: &Vec<Result<Vec<u8>, String>>,
) -> (result: Result<Option<String>, String>)
    requires
        command@.len() < usize::MAX - 4,
        packs matches Ok(registry) ==> registry.well_formed() && contents@.len()
            == registry.external@.len(),
    ensures
        match planned(command@, simple_words(trimmed(command@)), archive, *packs, contents@) {
            Ok(model) => match model.rewritten {
                Some(text) => result matches Ok(Some(rewritten)) && rewritten@ == text,
                None => result matches Ok(None),
            },
            Err(fault) => result matches Err(error) && error@ == fault,
        },
{
    let plan = plan_with_options(command, archive, packs, contents)?;
    match plan.execution {
        ExecutionPlan::Original => Ok(None),
        ExecutionPlan::Rewrite { command } => Ok(Some(command)),
    }
}

/// The command that replaces an archived command under the built-in rules, if any.
#[must_use]
pub fn rewrite_with_archive(
    command: &str,
    archive: Option<ArchiveCommandRef<'_>>,
    builtins: &Result<Registry, String>,
) -> (rewritten: Option<String>)
    requires
        command@.len() < usize::MAX - 4,
        builtins matches Ok(registry) ==> registry.well_formed() && registry.external@.len() == 0,
    ensures
        match planned(command@, simple_words(trimmed(command@)), archive, *builtins, Seq::empty()) {
            Ok(model) => match model.rewritten {
                Some(text) => rewritten matches Some(replaced) && replaced@ == text,
                None => rewritten is None,
            },
            Err(fault) => rewritten is None,
        },
{
    let contents: Vec<Result<Vec<u8>, String>> = Vec::new();
    assert(contents@ =~= Seq::empty());
    match rewrite_with_options(command, archive, builtins, &contents) {
        Ok(rewritten) => rewritten,
        Err(_) => None,
    }
}

/// The command that replaces another one under the built-in rules, if any.
#[must_use]
pub fn rewrite(command: &str, builtins: &Result<Registry, String>) -> (rewritten: Option<String>)
    requires
        command@.len() < usize::MAX - 4,
        builtins matches Ok(registry) ==> registry.well_formed() && registry.external@.len() == 0,
    ensures
        match planned(command@, simple_words(trimmed(command@)), None, *builtins, Seq::empty()) {
            Ok(model) => match model.rewritten {
                Some(text) => rewritten matches Some(replaced) && replaced@ == text,
                None => rewritten is None,
            },
            Err(fault) => rewritten is None,
        },
{
    rewrite_with_archive(command, None, builtins)
}

proof fn lemma_trimmed_is_short(text: Seq<char>)
    ensures
        trimmed(text).len() <= text.len(),
{
    lemma_start_is_short(text);
    lemma_end_is_short(trimmed_start(text));
}

proof fn lemma_start_is_short(text: Seq<char>)
    ensures
        trimmed_start(text).len() <= text.len(),
    decreases text.len(),
{
    if text.len() > 0 && is_white_space(text[0]) {
        lemma_start_is_short(text.drop_first());
    }
}

proof fn lemma_end_is_short(text: Seq<char>)
    ensures
        trimmed_end(text).len() <= text.len(),
    decreases text.len(),
{
    if text.len() > 0 && is_white_space(text.last()) {
        lemma_end_is_short(text.drop_last());
    }
}

} // verus!
