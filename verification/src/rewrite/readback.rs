//! A wrapper command says what it was made from: its words, read as the arguments of a run, name
//! the selected rule, the packs, the archived call and the wrapped command.
use vstd::prelude::*;

use super::wrapper::{
    ArchiveCommandRef, archive_options, inside_quotes, lemma_body_is_read, pack_options, quoted_body,
    reference_options, shell_quoted, wrapped,
};
use crate::cli::running::{
    KeyModel, RequestModel, RunModel, RunOutcome, no_options, run_of, scanned,
};
use crate::digest::{hex_text, lemma_digest_round_trip};
use crate::rules::{ReferenceModel, SelectedModel};
use crate::shell::lexer::{
    LexModel, Quote, TokenModel, is_boundary, is_special, is_special_first, lexed, nothing_read,
    step, tokens_of,
};
use crate::shell::parser::simple_words;

verus! {

/// What was read of a command, behind tokens that were read before it.
pub open spec fn behind(tokens: Seq<TokenModel>, state: LexModel) -> LexModel {
    LexModel { tokens: tokens + state.tokens, ..state }
}

/// The tokens of a command behind others.
pub open spec fn following(tokens: Seq<TokenModel>, rest: Option<Seq<TokenModel>>) -> Option<
    Seq<TokenModel>,
> {
    match rest {
        Some(list) => Some(tokens + list),
        None => None,
    }
}

proof fn lemma_step_behind(
    front: Seq<char>,
    text: Seq<char>,
    at: int,
    tokens: Seq<TokenModel>,
    state: LexModel,
)
    requires
        0 <= at < text.len(),
    ensures
        match (step(front + text, front.len() + at, behind(tokens, state)), step(text, at, state)) {
            (Some((there, next)), Some((here, after))) => there == behind(tokens, here) && next
                == front.len() + after,
            (None, None) => true,
            _ => false,
        },
{
    let whole = front + text;
    let place = front.len() + at;
    let shifted = behind(tokens, state);
    assert(whole[place] == text[at]);
    if at + 1 < text.len() {
        assert(whole[place + 1] == text[at + 1]);
    }
    if at + 2 < text.len() {
        assert(whole[place + 2] == text[at + 2]);
    }
    if at + 3 < text.len() {
        assert(whole[place + 3] == text[at + 3]);
    }
    assert(shifted.ended() =~= behind(tokens, state.ended()));
    assert(shifted.then_token(TokenModel::Sequence) =~= behind(
        tokens,
        state.then_token(TokenModel::Sequence),
    ));
    assert(shifted.then_token(TokenModel::And) =~= behind(
        tokens,
        state.then_token(TokenModel::And),
    ));
    assert(shifted.then_token(TokenModel::Or) =~= behind(tokens, state.then_token(TokenModel::Or)));
    assert(shifted.then_token(TokenModel::Pipe) =~= behind(
        tokens,
        state.then_token(TokenModel::Pipe),
    ));
    assert(shifted.tokens.push(TokenModel::Merge) =~= tokens + state.tokens.push(
        TokenModel::Merge,
    ));
}

/// What was read before a command does not change how the command is read.
pub proof fn lemma_lexed_behind(
    front: Seq<char>,
    text: Seq<char>,
    at: int,
    tokens: Seq<TokenModel>,
    state: LexModel,
)
    requires
        0 <= at,
    ensures
        lexed(front + text, front.len() + at, behind(tokens, state)) == following(
            tokens,
            lexed(text, at, state),
        ),
    decreases text.len() - at,
{
    if at < text.len() {
        lemma_step_behind(front, text, at, tokens, state);
        if let Some((after, next)) = step(text, at, state) {
            if next > at {
                lemma_lexed_behind(front, text, next, tokens, after);
            }
        }
    } else {
        assert(behind(tokens, state).ended().tokens =~= tokens + state.ended().tokens);
    }
}

/// Whatever follows a piece of a command, the piece is read as words of its own.
spec fn opens(piece: Seq<char>, words: Seq<Seq<char>>) -> bool {
    forall|rest: Seq<char>| #[trigger]
        tokens_of(piece + rest) == following(word_tokens(words), tokens_of(rest))
}

/// Words as tokens.
spec fn word_tokens(words: Seq<Seq<char>>) -> Seq<TokenModel> {
    words.map_values(|word: Seq<char>| TokenModel::Word(word))
}

proof fn lemma_opens_together(
    first: Seq<char>,
    first_words: Seq<Seq<char>>,
    second: Seq<char>,
    second_words: Seq<Seq<char>>,
)
    requires
        opens(first, first_words),
        opens(second, second_words),
    ensures
        opens(first + second, first_words + second_words),
{
    assert forall|rest: Seq<char>| #[trigger]
        tokens_of((first + second) + rest) == following(
            word_tokens(first_words + second_words),
            tokens_of(rest),
        ) by {
        assert((first + second) + rest =~= first + (second + rest));
        assert(tokens_of(first + (second + rest)) == following(
            word_tokens(first_words),
            tokens_of(second + rest),
        ));
        if let Some(list) = tokens_of(rest) {
            assert(word_tokens(first_words + second_words) + list =~= word_tokens(first_words) + (
            word_tokens(second_words) + list));
        }
    }
}

proof fn lemma_nothing_opens()
    ensures
        opens(Seq::empty(), Seq::empty()),
{
    assert forall|rest: Seq<char>| #[trigger]
        tokens_of(Seq::<char>::empty() + rest) == following(
            word_tokens(Seq::empty()),
            tokens_of(rest),
        ) by {
        assert(Seq::<char>::empty() + rest =~= rest);
        if let Some(list) = tokens_of(rest) {
            assert(word_tokens(Seq::empty()) + list =~= list);
        }
    }
}

/// The character stands for itself in a word.
spec fn is_plain(c: char) -> bool {
    !is_boundary(c) && !is_special(c) && !is_special_first(c) && c != '\'' && c != '"' && c != '\\'
}

/// The lexer in a word without quotes.
spec fn in_word(word: Seq<char>) -> LexModel {
    if word.len() == 0 {
        nothing_read()
    } else {
        LexModel { word: Some(word), ..nothing_read() }
    }
}

proof fn lemma_plain_word_is_read(word: Seq<char>, rest: Seq<char>, count: nat)
    requires
        count <= word.len(),
        forall|i: int| 0 <= i < word.len() ==> is_plain(#[trigger] word[i]),
    ensures
        lexed(word + rest, 0, nothing_read()) == lexed(
            word + rest,
            count as int,
            in_word(word.take(count as int)),
        ),
    decreases count,
{
    let text = word + rest;
    if count == 0 {
        assert(word.take(0).len() == 0);
    } else {
        let before = (count - 1) as nat;
        lemma_plain_word_is_read(word, rest, before);
        let state = in_word(word.take(before as int));
        let c = word[before as int];
        assert(text[before as int] == c);
        assert(is_plain(c));
        assert(word.take(count as int) =~= word.take(before as int).push(c));
        assert(state.with(c) =~= in_word(word.take(count as int)));
        assert(step(text, before as int, state) == Some((state.with(c), before as int + 1)));
    }
}

proof fn lemma_word_has_ended(piece: Seq<char>, word: Seq<char>, rest: Seq<char>)
    ensures
        lexed(
            piece + rest,
            piece.len() as int,
            LexModel { tokens: seq![TokenModel::Word(word)], ..nothing_read() },
        ) == following(word_tokens(seq![word]), tokens_of(rest)),
{
    let tokens = word_tokens(seq![word]);
    assert(tokens =~= seq![TokenModel::Word(word)]);
    assert(behind(tokens, nothing_read()) =~= (LexModel {
        tokens: seq![TokenModel::Word(word)],
        ..nothing_read()
    }));
    lemma_lexed_behind(piece, rest, 0, tokens, nothing_read());
}

proof fn lemma_plain_word_opens(word: Seq<char>)
    requires
        word.len() > 0,
        forall|i: int| 0 <= i < word.len() ==> is_plain(#[trigger] word[i]),
    ensures
        opens(word.push(' '), seq![word]),
{
    let piece = word.push(' ');
    assert forall|rest: Seq<char>| #[trigger]
        tokens_of(piece + rest) == following(word_tokens(seq![word]), tokens_of(rest)) by {
        let text = piece + rest;
        assert(text =~= word + (seq![' '] + rest));
        lemma_plain_word_is_read(word, seq![' '] + rest, word.len());
        assert(word.take(word.len() as int) =~= word);
        let state = in_word(word);
        assert(text[word.len() as int] == ' ');
        assert(state.ended() =~= (LexModel {
            tokens: seq![TokenModel::Word(word)],
            ..nothing_read()
        }));
        assert(step(text, word.len() as int, state) == Some(
            (state.ended(), word.len() as int + 1),
        ));
        lemma_word_has_ended(piece, word, rest);
    }
}

proof fn lemma_quoted_opens(value: Seq<char>)
    ensures
        opens(shell_quoted(value).push(' '), seq![value]),
{
    let piece = shell_quoted(value).push(' ');
    assert forall|rest: Seq<char>| #[trigger]
        tokens_of(piece + rest) == following(word_tokens(seq![value]), tokens_of(rest)) by {
        let text = piece + rest;
        let close = seq!['\'', ' '] + rest;
        assert(text =~= seq!['\''] + quoted_body(value) + close);
        lemma_body_is_read(value, close);
        let opened = inside_quotes(Seq::empty());
        assert(nothing_read().quoting(Quote::Single) =~= opened);
        assert(text[0] == '\'');
        assert(step(text, 0, nothing_read()) == Some((opened, 1int)));
        let last = 1 + quoted_body(value).len() as int;
        let inside = inside_quotes(value);
        assert(text[last] == '\'' && text[last + 1] == ' ');
        let bare = LexModel { quote: Quote::Bare, ..inside };
        assert(step(text, last, inside) == Some((bare, last + 1)));
        assert(bare.ended() =~= (LexModel {
            tokens: seq![TokenModel::Word(value)],
            ..nothing_read()
        }));
        assert(step(text, last + 1, bare) == Some((bare.ended(), last + 2)));
        assert(piece.len() == last + 2);
        assert(lexed(text, last, inside) == lexed(text, last + 1, bare));
        assert(lexed(text, last + 1, bare) == lexed(text, last + 2, bare.ended()));
        lemma_word_has_ended(piece, value, rest);
    }
}

/// An option with its value, as words.
pub open spec fn option_words(option: Seq<char>, value: Seq<char>) -> Seq<Seq<char>> {
    seq![option, value]
}

proof fn lemma_option_opens(option: Seq<char>, value: Seq<char>)
    requires
        option.len() > 0,
        forall|i: int| 0 <= i < option.len() ==> is_plain(#[trigger] option[i]),
    ensures
        opens(option.push(' ') + shell_quoted(value).push(' '), option_words(option, value)),
{
    lemma_plain_word_opens(option);
    lemma_quoted_opens(value);
    lemma_opens_together(
        option.push(' '),
        seq![option],
        shell_quoted(value).push(' '),
        seq![value],
    );
    assert(seq![option] + seq![value] =~= option_words(option, value));
}

/// An option with its value, as it stands in front of more words.
spec fn option_text(option: Seq<char>, value: Seq<char>) -> Seq<char> {
    option.push(' ') + shell_quoted(value).push(' ')
}

/// An option as it stands between values.
spec fn between(option: Seq<char>) -> Seq<char> {
    seq![' '] + option + seq![' ']
}

/// The option is a word of plain characters.
spec fn is_option(option: Seq<char>) -> bool {
    option.len() > 0 && forall|i: int| 0 <= i < option.len() ==> is_plain(#[trigger] option[i])
}

proof fn lemma_selection_options()
    ensures
        is_option("yarp"@),
        is_option("run"@),
        is_option("--selected-pack"@),
        is_option("--selected-rule"@),
        is_option("--selected-digest"@),
        is_option("--"@),
        "yarp run --selected-pack "@ == "yarp"@.push(' ') + "run"@.push(' ')
            + "--selected-pack"@.push(' '),
        " --selected-rule "@ == between("--selected-rule"@),
        " --selected-digest "@ == between("--selected-digest"@),
        " -- "@ == between("--"@),
{
    reveal_strlit("yarp");
    reveal_strlit("run");
    reveal_strlit("--selected-pack");
    reveal_strlit("--selected-rule");
    reveal_strlit("--selected-digest");
    reveal_strlit("--");
    reveal_strlit("yarp run --selected-pack ");
    reveal_strlit(" --selected-rule ");
    reveal_strlit(" --selected-digest ");
    reveal_strlit(" -- ");
    assert("yarp run --selected-pack "@ =~= "yarp"@.push(' ') + "run"@.push(' ')
        + "--selected-pack"@.push(' '));
    assert(" --selected-rule "@ =~= between("--selected-rule"@));
    assert(" --selected-digest "@ =~= between("--selected-digest"@));
    assert(" -- "@ =~= between("--"@));
}

proof fn lemma_pack_option_words()
    ensures
        is_option("--rule-pack"@),
        is_option("--rule-pack-digest"@),
        is_option("--rule-pack-compiled-digest"@),
        " --rule-pack "@ == between("--rule-pack"@),
        " --rule-pack-digest "@ == between("--rule-pack-digest"@),
        " --rule-pack-compiled-digest "@ == between("--rule-pack-compiled-digest"@),
{
    reveal_strlit("--rule-pack");
    reveal_strlit("--rule-pack-digest");
    reveal_strlit("--rule-pack-compiled-digest");
    reveal_strlit(" --rule-pack ");
    reveal_strlit(" --rule-pack-digest ");
    reveal_strlit(" --rule-pack-compiled-digest ");
    assert(" --rule-pack "@ =~= between("--rule-pack"@));
    assert(" --rule-pack-digest "@ =~= between("--rule-pack-digest"@));
    assert(" --rule-pack-compiled-digest "@ =~= between("--rule-pack-compiled-digest"@));
}

proof fn lemma_archive_option_words()
    ensures
        is_option("--archive-agent"@),
        is_option("--archive-account"@),
        is_option("--archive-session"@),
        is_option("--archive-call"@),
        " --archive-agent "@ == between("--archive-agent"@),
        " --archive-account "@ == between("--archive-account"@),
        " --archive-session "@ == between("--archive-session"@),
        " --archive-call "@ == between("--archive-call"@),
{
    reveal_strlit("--archive-agent");
    reveal_strlit("--archive-account");
    reveal_strlit("--archive-session");
    reveal_strlit("--archive-call");
    reveal_strlit(" --archive-agent ");
    reveal_strlit(" --archive-account ");
    reveal_strlit(" --archive-session ");
    reveal_strlit(" --archive-call ");
    assert(" --archive-agent "@ =~= between("--archive-agent"@));
    assert(" --archive-account "@ =~= between("--archive-account"@));
    assert(" --archive-session "@ =~= between("--archive-session"@));
    assert(" --archive-call "@ =~= between("--archive-call"@));
}

/// The arguments of a run that name the selected rule.
pub open spec fn selection_arguments(selected: SelectedModel) -> Seq<Seq<char>> {
    option_words("--selected-pack"@, selected.pack_id) + option_words(
        "--selected-rule"@,
        selected.rule.id,
    ) + option_words("--selected-digest"@, hex_text(selected.source_digest))
}

/// The arguments of a run that name an external pack.
pub open spec fn reference_arguments(reference: ReferenceModel) -> Seq<Seq<char>> {
    option_words("--rule-pack"@, reference.path) + option_words(
        "--rule-pack-digest"@,
        hex_text(reference.source_digest),
    ) + option_words("--rule-pack-compiled-digest"@, hex_text(reference.compiled_digest))
}

/// The arguments of a run that name the first `count` external packs.
pub open spec fn pack_arguments(references: Seq<ReferenceModel>, count: nat) -> Seq<Seq<char>>
    decreases count,
{
    if count == 0 {
        Seq::empty()
    } else {
        pack_arguments(references, (count - 1) as nat) + reference_arguments(references[count - 1])
    }
}

/// The arguments of a run that name the archived call.
pub open spec fn archive_arguments(archive: Option<ArchiveCommandRef<'_>>) -> Seq<Seq<char>> {
    match archive {
        None => Seq::empty(),
        Some(reference) => option_words("--archive-agent"@, reference.agent@) + option_words(
            "--archive-account"@,
            reference.account@,
        ) + option_words("--archive-session"@, reference.session_id@) + option_words(
            "--archive-call"@,
            reference.call_id@,
        ),
    }
}

/// The arguments of a run that runs a command with the given words.
pub open spec fn run_arguments(
    words: Seq<Seq<char>>,
    archive: Option<ArchiveCommandRef<'_>>,
    references: Seq<ReferenceModel>,
    selected: SelectedModel,
) -> Seq<Seq<char>> {
    selection_arguments(selected) + pack_arguments(references, references.len())
        + archive_arguments(archive) + seq!["--"@] + words
}

/// An external pack, as it stands in front of more words.
spec fn reference_text(reference: ReferenceModel) -> Seq<char> {
    option_text("--rule-pack"@, reference.path) + option_text(
        "--rule-pack-digest"@,
        hex_text(reference.source_digest),
    ) + option_text("--rule-pack-compiled-digest"@, hex_text(reference.compiled_digest))
}

spec fn pack_text(references: Seq<ReferenceModel>, count: nat) -> Seq<char>
    decreases count,
{
    if count == 0 {
        Seq::empty()
    } else {
        pack_text(references, (count - 1) as nat) + reference_text(references[count - 1])
    }
}

spec fn archive_text(archive: Option<ArchiveCommandRef<'_>>) -> Seq<char> {
    match archive {
        None => Seq::empty(),
        Some(reference) => option_text("--archive-agent"@, reference.agent@) + option_text(
            "--archive-account"@,
            reference.account@,
        ) + option_text("--archive-session"@, reference.session_id@) + option_text(
            "--archive-call"@,
            reference.call_id@,
        ),
    }
}

spec fn selection_text(selected: SelectedModel) -> Seq<char> {
    option_text("--selected-pack"@, selected.pack_id) + option_text(
        "--selected-rule"@,
        selected.rule.id,
    ) + option_text("--selected-digest"@, hex_text(selected.source_digest))
}

proof fn lemma_three_options_open(
    first: Seq<char>,
    one: Seq<char>,
    second: Seq<char>,
    two: Seq<char>,
    third: Seq<char>,
    three: Seq<char>,
)
    requires
        is_option(first),
        is_option(second),
        is_option(third),
    ensures
        opens(
            option_text(first, one) + option_text(second, two) + option_text(third, three),
            option_words(first, one) + option_words(second, two) + option_words(third, three),
        ),
{
    lemma_option_opens(first, one);
    lemma_option_opens(second, two);
    lemma_option_opens(third, three);
    lemma_opens_together(
        option_text(first, one),
        option_words(first, one),
        option_text(second, two),
        option_words(second, two),
    );
    lemma_opens_together(
        option_text(first, one) + option_text(second, two),
        option_words(first, one) + option_words(second, two),
        option_text(third, three),
        option_words(third, three),
    );
}

proof fn lemma_packs_open(references: Seq<ReferenceModel>, count: nat)
    requires
        count <= references.len(),
    ensures
        opens(pack_text(references, count), pack_arguments(references, count)),
        pack_options(references, count).push(' ') == seq![' '] + pack_text(references, count),
    decreases count,
{
    if count == 0 {
        lemma_nothing_opens();
        assert(pack_options(references, 0).push(' ') =~= seq![' '] + pack_text(references, 0));
    } else {
        let fewer = (count - 1) as nat;
        let reference = references[count - 1];
        lemma_packs_open(references, fewer);
        lemma_pack_option_words();
        lemma_three_options_open(
            "--rule-pack"@,
            reference.path,
            "--rule-pack-digest"@,
            hex_text(reference.source_digest),
            "--rule-pack-compiled-digest"@,
            hex_text(reference.compiled_digest),
        );
        lemma_opens_together(
            pack_text(references, fewer),
            pack_arguments(references, fewer),
            reference_text(reference),
            reference_arguments(reference),
        );
        assert(reference_options(reference).push(' ') =~= seq![' '] + reference_text(reference));
        assert(pack_options(references, count).push(' ') =~= pack_options(references, fewer)
            + reference_options(reference).push(' '));
        assert(pack_options(references, fewer) + (seq![' '] + reference_text(reference))
            =~= pack_options(references, fewer).push(' ') + reference_text(reference));
        assert((seq![' '] + pack_text(references, fewer)) + reference_text(reference)
            =~= seq![' '] + pack_text(references, count));
    }
}

proof fn lemma_archive_opens(archive: Option<ArchiveCommandRef<'_>>)
    ensures
        opens(archive_text(archive), archive_arguments(archive)),
        archive_options(archive).push(' ') == seq![' '] + archive_text(archive),
{
    match archive {
        None => {
            lemma_nothing_opens();
            assert(archive_options(archive).push(' ') =~= seq![' '] + archive_text(archive));
        },
        Some(reference) => {
            lemma_archive_option_words();
            lemma_three_options_open(
                "--archive-agent"@,
                reference.agent@,
                "--archive-account"@,
                reference.account@,
                "--archive-session"@,
                reference.session_id@,
            );
            lemma_option_opens("--archive-call"@, reference.call_id@);
            lemma_opens_together(
                option_text("--archive-agent"@, reference.agent@) + option_text(
                    "--archive-account"@,
                    reference.account@,
                ) + option_text("--archive-session"@, reference.session_id@),
                option_words("--archive-agent"@, reference.agent@) + option_words(
                    "--archive-account"@,
                    reference.account@,
                ) + option_words("--archive-session"@, reference.session_id@),
                option_text("--archive-call"@, reference.call_id@),
                option_words("--archive-call"@, reference.call_id@),
            );
            assert(archive_options(archive).push(' ') =~= seq![' '] + archive_text(archive));
        },
    }
}

/// A wrapper without the command that it runs.
spec fn wrapper_front(
    archive: Option<ArchiveCommandRef<'_>>,
    references: Seq<ReferenceModel>,
    selected: SelectedModel,
) -> Seq<char> {
    ("yarp"@.push(' ') + "run"@.push(' ')) + selection_text(selected) + pack_text(
        references,
        references.len(),
    ) + archive_text(archive) + "--"@.push(' ')
}

spec fn front_words(
    archive: Option<ArchiveCommandRef<'_>>,
    references: Seq<ReferenceModel>,
    selected: SelectedModel,
) -> Seq<Seq<char>> {
    (seq!["yarp"@] + seq!["run"@]) + selection_arguments(selected) + pack_arguments(
        references,
        references.len(),
    ) + archive_arguments(archive) + seq!["--"@]
}

proof fn lemma_front_opens(
    archive: Option<ArchiveCommandRef<'_>>,
    references: Seq<ReferenceModel>,
    selected: SelectedModel,
)
    ensures
        opens(
            wrapper_front(archive, references, selected),
            front_words(archive, references, selected),
        ),
{
    lemma_selection_options();
    lemma_plain_word_opens("yarp"@);
    lemma_plain_word_opens("run"@);
    lemma_opens_together("yarp"@.push(' '), seq!["yarp"@], "run"@.push(' '), seq!["run"@]);
    lemma_three_options_open(
        "--selected-pack"@,
        selected.pack_id,
        "--selected-rule"@,
        selected.rule.id,
        "--selected-digest"@,
        hex_text(selected.source_digest),
    );
    let program = "yarp"@.push(' ') + "run"@.push(' ');
    let program_words = seq!["yarp"@] + seq!["run"@];
    lemma_opens_together(
        program,
        program_words,
        selection_text(selected),
        selection_arguments(selected),
    );
    lemma_packs_open(references, references.len());
    lemma_opens_together(
        program + selection_text(selected),
        program_words + selection_arguments(selected),
        pack_text(references, references.len()),
        pack_arguments(references, references.len()),
    );
    lemma_archive_opens(archive);
    lemma_opens_together(
        program + selection_text(selected) + pack_text(references, references.len()),
        program_words + selection_arguments(selected) + pack_arguments(
            references,
            references.len(),
        ),
        archive_text(archive),
        archive_arguments(archive),
    );
    lemma_plain_word_opens("--"@);
    lemma_opens_together(
        program + selection_text(selected) + pack_text(references, references.len())
            + archive_text(archive),
        program_words + selection_arguments(selected) + pack_arguments(
            references,
            references.len(),
        ) + archive_arguments(archive),
        "--"@.push(' '),
        seq!["--"@],
    );
}

proof fn lemma_spaces_move(
    start: Seq<char>,
    packs: Seq<char>,
    packs_after: Seq<char>,
    call: Seq<char>,
    call_after: Seq<char>,
    end: Seq<char>,
)
    requires
        packs.push(' ') == seq![' '] + packs_after,
        call.push(' ') == seq![' '] + call_after,
    ensures
        start + packs + call + (seq![' '] + end) == start.push(' ') + packs_after + call_after
            + end,
{
    assert(start + packs + call + (seq![' '] + end) =~= start + packs + call.push(' ') + end);
    assert(start + packs + (seq![' '] + call_after) + end =~= start + packs.push(' ') + call_after
        + end);
    assert(start + (seq![' '] + packs_after) + call_after + end =~= start.push(' ') + packs_after
        + call_after + end);
}

proof fn lemma_selection_start(selected: SelectedModel)
    ensures
        ("yarp run --selected-pack "@ + shell_quoted(selected.pack_id) + " --selected-rule "@
            + shell_quoted(selected.rule.id) + " --selected-digest "@ + shell_quoted(
            hex_text(selected.source_digest),
        )).push(' ') == ("yarp"@.push(' ') + "run"@.push(' ')) + selection_text(selected),
{
    lemma_selection_options();
    let pack = shell_quoted(selected.pack_id);
    let rule = shell_quoted(selected.rule.id);
    let digest = shell_quoted(hex_text(selected.source_digest));
    let program = "yarp"@.push(' ') + "run"@.push(' ');
    let first = "--selected-pack"@.push(' ');
    assert((program + first + pack + between("--selected-rule"@) + rule + between(
        "--selected-digest"@,
    ) + digest).push(' ') =~= program + (first + pack.push(' ') + ("--selected-rule"@.push(' ')
        + rule.push(' ')) + ("--selected-digest"@.push(' ') + digest.push(' '))));
}

proof fn lemma_wrapper_text(
    command: Seq<char>,
    archive: Option<ArchiveCommandRef<'_>>,
    references: Seq<ReferenceModel>,
    selected: SelectedModel,
)
    ensures
        wrapped(command, archive, references, selected) == wrapper_front(
            archive,
            references,
            selected,
        ) + command,
{
    lemma_packs_open(references, references.len());
    lemma_archive_opens(archive);
    lemma_selection_start(selected);
    assert(" -- "@ == between("--"@)) by {
        lemma_selection_options();
    }
    let start = "yarp run --selected-pack "@ + shell_quoted(selected.pack_id)
        + " --selected-rule "@ + shell_quoted(selected.rule.id) + " --selected-digest "@
        + shell_quoted(hex_text(selected.source_digest));
    let packs = pack_options(references, references.len());
    let packs_after = pack_text(references, references.len());
    let call = archive_options(archive);
    let end = "--"@.push(' ') + command;
    lemma_spaces_move(start, packs, packs_after, call, archive_text(archive), end);
    lemma_end_joins(start + packs + call, command);
    let front = start.push(' ') + packs_after + archive_text(archive);
    assert(front + end =~= front + "--"@.push(' ') + command);
}

proof fn lemma_end_joins(front: Seq<char>, command: Seq<char>)
    ensures
        front + between("--"@) + command == front + (seq![' '] + ("--"@.push(' ') + command)),
{
    assert(front + between("--"@) + command =~= front + (seq![' '] + ("--"@.push(' ') + command)));
}

/// The shell reads a wrapper as a run of `yarp` with the arguments that name the selection, the
/// packs and the call, a separator, and the words of the wrapped command.
pub proof fn lemma_wrapper_words(
    command: Seq<char>,
    words: Seq<Seq<char>>,
    archive: Option<ArchiveCommandRef<'_>>,
    references: Seq<ReferenceModel>,
    selected: SelectedModel,
)
    requires
        simple_words(command) == Some(words),
    ensures
        simple_words(wrapped(command, archive, references, selected)) == Some(
            seq!["yarp"@, "run"@] + run_arguments(words, archive, references, selected),
        ),
{
    let front = wrapper_front(archive, references, selected);
    let before = front_words(archive, references, selected);
    lemma_front_opens(archive, references, selected);
    lemma_wrapper_text(command, archive, references, selected);
    let inner = tokens_of(command)->Some_0;
    let all = word_tokens(before) + inner;
    assert(tokens_of(front + command) == following(word_tokens(before), tokens_of(command)));
    assert(before + words =~= seq!["yarp"@, "run"@] + run_arguments(
        words,
        archive,
        references,
        selected,
    ));
    assert forall|i: int| 0 <= i < all.len() implies (#[trigger] all[i]) is Word by {
        if i >= before.len() {
            assert(inner[i - before.len()] is Word);
        }
    }
    assert(all.len() >= inner.len());
    assert(all.map_values(|token: TokenModel| token->Word_0) =~= before + words) by {
        assert(words =~= inner.map_values(|token: TokenModel| token->Word_0));
    }
}

/// The request for a pack that a wrapper names.
pub open spec fn named_pack(reference: ReferenceModel) -> RequestModel {
    RequestModel {
        path: reference.path,
        source: Some(reference.source_digest),
        compiled: Some(reference.compiled_digest),
    }
}

/// The requests for the packs that a wrapper names.
pub open spec fn named_packs(references: Seq<ReferenceModel>) -> Seq<RequestModel> {
    references.map_values(|reference: ReferenceModel| named_pack(reference))
}

/// The call that a wrapper names.
pub open spec fn named_call(archive: Option<ArchiveCommandRef<'_>>) -> Option<KeyModel> {
    match archive {
        None => None,
        Some(reference) => Some(
            KeyModel {
                agent: reference.agent@,
                account: reference.account@,
                session: reference.session_id@,
                call: reference.call_id@,
            },
        ),
    }
}

/// Every digest has 32 bytes.
pub open spec fn has_digests(references: Seq<ReferenceModel>, selected: SelectedModel) -> bool {
    &&& selected.source_digest.len() == 32
    &&& forall|i: int|
        0 <= i < references.len() ==> (#[trigger] references[i]).source_digest.len() == 32
            && references[i].compiled_digest.len() == 32
}

proof fn lemma_pack_places(references: Seq<ReferenceModel>, count: nat)
    requires
        count <= references.len(),
    ensures
        pack_arguments(references, count).len() == 6 * count,
        forall|k: int, j: int|
            0 <= k < count && 0 <= j < 6 ==> pack_arguments(references, count)[6 * k + j]
                == #[trigger] reference_arguments(references[k])[j],
    decreases count,
{
    if count > 0 {
        let fewer = (count - 1) as nat;
        lemma_pack_places(references, fewer);
        let front = pack_arguments(references, fewer);
        let last = reference_arguments(references[count - 1]);
        assert(last.len() == 6);
        assert forall|k: int, j: int| 0 <= k < count && 0 <= j < 6 implies pack_arguments(
            references,
            count,
        )[6 * k + j] == #[trigger] reference_arguments(references[k])[j] by {
            if k == fewer {
                assert((front + last)[6 * k + j] == last[j]);
            } else {
                assert(6 * k + j < 6 * fewer);
                assert((front + last)[6 * k + j] == front[6 * k + j]);
            }
        }
    }
}

proof fn lemma_options_differ()
    ensures
        "--selected-pack"@ != "--"@,
        "--selected-rule"@ != "--"@,
        "--selected-digest"@ != "--"@,
        "--rule-pack"@ != "--"@,
        "--archive-agent"@ != "--"@,
        "--archive-account"@ != "--"@,
        "--archive-session"@ != "--"@,
        "--archive-call"@ != "--"@,
        "--rule-pack"@ != "--archive-agent"@,
        "--rule-pack"@ != "--archive-account"@,
        "--rule-pack"@ != "--archive-session"@,
        "--rule-pack"@ != "--archive-call"@,
{
    reveal_strlit("--");
    reveal_strlit("--selected-pack");
    reveal_strlit("--selected-rule");
    reveal_strlit("--selected-digest");
    reveal_strlit("--rule-pack");
    reveal_strlit("--archive-agent");
    reveal_strlit("--archive-account");
    reveal_strlit("--archive-session");
    reveal_strlit("--archive-call");
    assert("--rule-pack"@.len() == 11);
    assert("--archive-agent"@.len() == 15);
    assert("--archive-account"@.len() == 17);
    assert("--archive-session"@.len() == 17);
    assert("--archive-call"@.len() == 14);
    assert("--"@.len() == 2);
    assert("--selected-pack"@.len() == 15);
    assert("--selected-rule"@.len() == 15);
    assert("--selected-digest"@.len() == 17);
}

proof fn lemma_scan_packs(
    arguments: Seq<Seq<char>>,
    references: Seq<ReferenceModel>,
    selected: SelectedModel,
    after: Seq<Seq<char>>,
    count: nat,
    found: RunModel,
)
    requires
        arguments == selection_arguments(selected) + pack_arguments(references, references.len())
            + after,
        has_digests(references, selected),
        count <= references.len(),
        found.pack is Some,
        found.rule is Some,
        found.digest is Some,
        found.agent is None,
        found.account is None,
        found.session is None,
        found.call is None,
    ensures
        scanned(arguments, 6 + 6 * count, found) == scanned(
            arguments,
            6 + 6 * references.len(),
            RunModel { packs: found.packs + named_packs(references.skip(count as int)), ..found },
        ),
    decreases references.len() - count,
{
    lemma_pack_places(references, references.len());
    let total = pack_arguments(references, references.len());
    if count == references.len() {
        assert(found.packs + named_packs(references.skip(count as int)) =~= found.packs);
    } else {
        lemma_options_differ();
        let reference = references[count as int];
        let place = 6 + 6 * count;
        let own = reference_arguments(reference);
        assert forall|j: int| 0 <= j < 6 implies arguments[place + j] == #[trigger] own[j] by {
            assert(total[6 * count + j] == own[j]);
        }
        assert(own[0] == "--rule-pack"@);
        assert(own[1] == reference.path);
        assert(own[2] == "--rule-pack-digest"@);
        assert(own[3] == hex_text(reference.source_digest));
        assert(own[4] == "--rule-pack-compiled-digest"@);
        assert(own[5] == hex_text(reference.compiled_digest));
        lemma_digest_round_trip(reference.source_digest);
        lemma_digest_round_trip(reference.compiled_digest);
        assert(crate::cli::running::pack_option(arguments, place) == Ok::<
            (RequestModel, nat),
            Seq<char>,
        >((named_pack(reference), place + 6)));
        let next = RunModel { packs: found.packs.push(named_pack(reference)), ..found };
        assert(scanned(arguments, place, found) == scanned(arguments, place + 6, next));
        lemma_scan_packs(arguments, references, selected, after, count + 1, next);
        assert(found.packs + named_packs(references.skip(count as int)) =~= next.packs
            + named_packs(references.skip(count as int + 1)));
    }
}

/// The options that name the selected rule were read.
spec fn selection_found(selected: SelectedModel) -> RunModel {
    RunModel {
        pack: Some(selected.pack_id),
        rule: Some(selected.rule.id),
        digest: Some(selected.source_digest),
        ..no_options()
    }
}

proof fn lemma_scan_selection(arguments: Seq<Seq<char>>, selected: SelectedModel, after: Seq<Seq<char>>)
    requires
        arguments == selection_arguments(selected) + after,
        selected.source_digest.len() == 32,
    ensures
        scanned(arguments, 0, no_options()) == scanned(arguments, 6, selection_found(selected)),
{
    lemma_options_differ();
    lemma_digest_round_trip(selected.source_digest);
    let own = selection_arguments(selected);
    assert forall|j: int| 0 <= j < 6 implies arguments[j] == #[trigger] own[j] by {}
    assert(own[0] == "--selected-pack"@ && own[1] == selected.pack_id);
    assert(own[2] == "--selected-rule"@ && own[3] == selected.rule.id);
    assert(own[4] == "--selected-digest"@ && own[5] == hex_text(selected.source_digest));
    let first = RunModel { pack: Some(selected.pack_id), ..no_options() };
    let second = RunModel { rule: Some(selected.rule.id), ..first };
    assert(scanned(arguments, 0, no_options()) == scanned(arguments, 2, first));
    assert(scanned(arguments, 2, first) == scanned(arguments, 4, second));
    assert(scanned(arguments, 4, second) == scanned(arguments, 6, selection_found(selected)));
}

proof fn lemma_scan_call(
    arguments: Seq<Seq<char>>,
    front: Seq<Seq<char>>,
    archive: Option<ArchiveCommandRef<'_>>,
    after: Seq<Seq<char>>,
    found: RunModel,
)
    requires
        arguments == front + archive_arguments(archive) + after,
        found.pack is Some,
        found.rule is Some,
        found.digest is Some,
        found.agent is None,
        found.account is None,
        found.session is None,
        found.call is None,
    ensures
        scanned(arguments, front.len(), found) == scanned(
            arguments,
            front.len() + archive_arguments(archive).len(),
            match named_call(archive) {
                None => found,
                Some(key) => RunModel {
                    agent: Some(key.agent),
                    account: Some(key.account),
                    session: Some(key.session),
                    call: Some(key.call),
                    ..found
                },
            },
        ),
{
    if let Some(reference) = archive {
        lemma_options_differ();
        let own = archive_arguments(archive);
        let place = front.len();
        assert forall|j: int| 0 <= j < 8 implies arguments[place + j] == #[trigger] own[j] by {}
        assert(own[0] == "--archive-agent"@ && own[1] == reference.agent@);
        assert(own[2] == "--archive-account"@ && own[3] == reference.account@);
        assert(own[4] == "--archive-session"@ && own[5] == reference.session_id@);
        assert(own[6] == "--archive-call"@ && own[7] == reference.call_id@);
        let first = RunModel { agent: Some(reference.agent@), ..found };
        let second = RunModel { account: Some(reference.account@), ..first };
        let third = RunModel { session: Some(reference.session_id@), ..second };
        let fourth = RunModel { call: Some(reference.call_id@), ..third };
        assert(scanned(arguments, place, found) == scanned(arguments, place + 2, first));
        assert(scanned(arguments, place + 2, first) == scanned(arguments, place + 4, second));
        assert(scanned(arguments, place + 4, second) == scanned(arguments, place + 6, third));
        assert(scanned(arguments, place + 6, third) == scanned(arguments, place + 8, fourth));
    }
}

/// The arguments of a wrapper, read as those of a run, say what the wrapper was made from: the
/// selected rule, the packs with their digests, the archived call, and the words of the command.
/// What the configuration says does not matter.
pub proof fn lemma_wrapper_is_read_back(
    words: Seq<Seq<char>>,
    archive: Option<ArchiveCommandRef<'_>>,
    references: Seq<ReferenceModel>,
    selected: SelectedModel,
    configured: Result<Seq<RequestModel>, Seq<char>>,
)
    requires
        words.len() > 0,
        has_digests(references, selected),
    ensures
        run_of(run_arguments(words, archive, references, selected), configured) == Ok::<
            RunOutcome,
            Seq<char>,
        >(
            RunOutcome {
                key: named_call(archive),
                child: words,
                packs: named_packs(references),
                expected: Some((selected.pack_id, selected.rule.id, selected.source_digest)),
            },
        ),
{
    let arguments = run_arguments(words, archive, references, selected);
    let packs = pack_arguments(references, references.len());
    let call = archive_arguments(archive);
    let tail = seq!["--"@] + words;
    assert(arguments =~= selection_arguments(selected) + (packs + call + tail));
    lemma_scan_selection(arguments, selected, packs + call + tail);
    let found = selection_found(selected);
    assert(arguments =~= selection_arguments(selected) + packs + (call + tail));
    lemma_scan_packs(arguments, references, selected, call + tail, 0, found);
    assert(references.skip(0) =~= references);
    assert(found.packs + named_packs(references) =~= named_packs(references));
    lemma_pack_places(references, references.len());
    let front = selection_arguments(selected) + packs;
    assert(front.len() == 6 + 6 * references.len());
    let packed = RunModel { packs: named_packs(references), ..found };
    assert(arguments =~= front + call + tail);
    lemma_scan_call(arguments, front, archive, tail, packed);
    let place = front.len() + call.len();
    assert(arguments[place as int] == "--"@);
    assert(arguments.skip(place as int + 1) =~= words);
}

} // verus!
