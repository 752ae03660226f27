//! What holds of commands as they are written.
use vstd::prelude::*;

use super::lexer::{
    LexModel, Quote, TokenModel, lexed, nothing_read, step, tokens_of,
};
use super::parser::{
    ParseModel, nothing_parsed, parsed, program_of, simple_words, without_last_ends,
};
use super::{Connector, ItemModel};
use crate::rewrite::readback::{behind, following, lemma_lexed_behind};

verus! {

/// A letter, a digit, or a sign that has no meaning of its own in a command.
pub open spec fn is_ordinary(c: char) -> bool {
    ||| 'a' <= c <= 'z'
    ||| 'A' <= c <= 'Z'
    ||| '0' <= c <= '9'
    ||| c == '-' || c == '_' || c == '.' || c == '/' || c == '=' || c == ':' || c == ',' || c == '+'
        || c == '@' || c == '%'
}

/// A word of ordinary characters.
pub open spec fn is_bare_word(word: Seq<char>) -> bool {
    word.len() > 0 && forall|i: int| 0 <= i < word.len() ==> is_ordinary(#[trigger] word[i])
}

/// A word has been read so far, without quotes.
pub open spec fn word_read(word: Seq<char>) -> LexModel {
    LexModel { word: Some(word), ..nothing_read() }
}

proof fn lemma_word_runs(word: Seq<char>, rest: Seq<char>, count: nat)
    requires
        is_bare_word(word),
        0 < count <= word.len(),
    ensures
        tokens_of(word + rest) == lexed(
            word + rest,
            count as int,
            word_read(word.take(count as int)),
        ),
    decreases count,
{
    let text = word + rest;
    let before = (count - 1) as nat;
    let c = word[before as int];
    assert(text[before as int] == c);
    assert(is_ordinary(c));
    if before == 0 {
        assert(word.take(1) =~= seq![c]);
        assert(nothing_read().with(c) =~= word_read(seq![c]));
        assert(step(text, 0, nothing_read()) == Some((nothing_read().with(c), 1int)));
    } else {
        lemma_word_runs(word, rest, before);
        let state = word_read(word.take(before as int));
        assert(word.take(count as int) =~= word.take(before as int).push(c));
        assert(state.with(c) =~= word_read(word.take(count as int)));
        assert(step(text, before as int, state) == Some((state.with(c), before as int + 1)));
    }
}

proof fn lemma_word_then(
    word: Seq<char>,
    sign: Seq<char>,
    rest: Seq<char>,
    tokens: Seq<TokenModel>,
)
    requires
        is_bare_word(word),
        sign.len() > 0,
        step(word + (sign + rest), word.len() as int, word_read(word)) == Some(
            (LexModel { tokens, ..nothing_read() }, (word.len() + sign.len()) as int),
        ),
    ensures
        tokens_of(word + sign + rest) == following(tokens, tokens_of(rest)),
{
    let text = word + (sign + rest);
    assert(word + sign + rest =~= text);
    lemma_word_runs(word, sign + rest, word.len());
    assert(word.take(word.len() as int) =~= word);
    let after = LexModel { tokens, ..nothing_read() };
    let front = word + sign;
    assert(lexed(text, word.len() as int, word_read(word)) == lexed(
        text,
        (word.len() + sign.len()) as int,
        after,
    ));
    assert(behind(tokens, nothing_read()) =~= after);
    assert(front + rest =~= text);
    lemma_lexed_behind(front, rest, 0, tokens, nothing_read());
}

/// A bare word is read as it stands. Blanks part words; `;`, a line feed, `&&`, `||` and `|` part
/// commands. What follows is read as if it stood alone, and is refused where that would be.
pub proof fn lemma_operators_part_commands(word: Seq<char>, rest: Seq<char>)
    requires
        is_bare_word(word),
    ensures
        tokens_of(word) == Some(seq![TokenModel::Word(word)]),
        tokens_of(word + seq![' '] + rest) == following(
            seq![TokenModel::Word(word)],
            tokens_of(rest),
        ),
        tokens_of(word + seq![';'] + rest) == following(
            seq![TokenModel::Word(word), TokenModel::Sequence],
            tokens_of(rest),
        ),
        tokens_of(word + seq!['\n'] + rest) == following(
            seq![TokenModel::Word(word), TokenModel::Sequence],
            tokens_of(rest),
        ),
        tokens_of(word + seq!['&', '&'] + rest) == following(
            seq![TokenModel::Word(word), TokenModel::And],
            tokens_of(rest),
        ),
        tokens_of(word + seq!['|', '|'] + rest) == following(
            seq![TokenModel::Word(word), TokenModel::Or],
            tokens_of(rest),
        ),
        rest.len() > 0 && rest[0] != '|' && rest[0] != '&' ==> tokens_of(word + seq!['|'] + rest)
            == following(seq![TokenModel::Word(word), TokenModel::Pipe], tokens_of(rest)),
{
    let none = Seq::<char>::empty();
    lemma_word_runs(word, none, word.len());
    assert(word.take(word.len() as int) =~= word);
    assert(word + none =~= word);
    let read = word_read(word);
    let at = word.len() as int;
    let one = seq![TokenModel::Word(word)];
    assert(read.ended() =~= (LexModel { tokens: one, ..nothing_read() }));
    let blank = seq![' '];
    assert((word + (blank + rest))[at] == ' ');
    lemma_word_then(word, blank, rest, one);
    let two = seq![TokenModel::Word(word), TokenModel::Sequence];
    assert(read.then_token(TokenModel::Sequence) =~= (LexModel { tokens: two, ..nothing_read() }));
    assert((word + (seq![';'] + rest))[at] == ';');
    lemma_word_then(word, seq![';'], rest, two);
    assert((word + (seq!['\n'] + rest))[at] == '\n');
    lemma_word_then(word, seq!['\n'], rest, two);
    let both = seq![TokenModel::Word(word), TokenModel::And];
    assert(read.then_token(TokenModel::And) =~= (LexModel { tokens: both, ..nothing_read() }));
    let signs = seq!['&', '&'];
    assert((word + (signs + rest))[at] == '&' && (word + (signs + rest))[at + 1] == '&');
    lemma_word_then(word, signs, rest, both);
    let either = seq![TokenModel::Word(word), TokenModel::Or];
    assert(read.then_token(TokenModel::Or) =~= (LexModel { tokens: either, ..nothing_read() }));
    let bars = seq!['|', '|'];
    assert((word + (bars + rest))[at] == '|' && (word + (bars + rest))[at + 1] == '|');
    lemma_word_then(word, bars, rest, either);
    if rest.len() > 0 && rest[0] != '|' && rest[0] != '&' {
        let piped = seq![TokenModel::Word(word), TokenModel::Pipe];
        assert(read.then_token(TokenModel::Pipe) =~= (LexModel {
            tokens: piped,
            ..nothing_read()
        }));
        let bar = seq!['|'];
        assert((word + (bar + rest))[at] == '|' && (word + (bar + rest))[at + 1] == rest[0]);
        lemma_word_then(word, bar, rest, piped);
    }
}

/// A sign by which a shell would replace or redirect something.
pub open spec fn is_expanding(c: char) -> bool {
    c == '$' || c == '`' || c == '(' || c == ')' || c == '<' || c == '*' || c == '?' || c == '['
        || c == ']' || c == '{' || c == '}'
}

/// What a shell would expand, redirect or run in the background is refused: such a command is not
/// sure to be what its words say.
pub proof fn lemma_expansions_are_refused(word: Seq<char>, c: char, rest: Seq<char>)
    requires
        is_bare_word(word),
    ensures
        is_expanding(c) ==> tokens_of(word + seq![c] + rest) is None && tokens_of(seq![c] + rest)
            is None,
        c == '>' && word != seq!['2'] ==> tokens_of(word + seq![c] + rest) is None,
        c == '&' && (rest.len() == 0 || rest[0] != '&') ==> tokens_of(word + seq![c] + rest)
            is None,
        c == '#' || c == '~' || c == '!' ==> tokens_of(seq![c] + rest) is None,
{
    let text = word + seq![c] + rest;
    let at = word.len() as int;
    assert(text =~= word + (seq![c] + rest));
    lemma_word_runs(word, seq![c] + rest, word.len());
    assert(word.take(at) =~= word);
    assert(text[at] == c);
    if rest.len() > 0 {
        assert(text[at + 1] == rest[0]);
    }
    let alone = seq![c] + rest;
    assert(alone[0] == c);
    if is_expanding(c) {
        assert(step(text, at, word_read(word)) is None);
        assert(step(alone, 0, nothing_read()) is None);
    }
    if c == '>' && word != seq!['2'] {
        assert(word_read(word).word != Some(seq!['2']));
        assert(step(text, at, word_read(word)) is None);
    }
    if c == '&' && (rest.len() == 0 || rest[0] != '&') {
        assert(step(text, at, word_read(word)) is None);
    }
    if c == '#' || c == '~' || c == '!' {
        assert(step(alone, 0, nothing_read()) is None);
    }
}

/// Quotes of one kind around a word.
pub open spec fn in_quotes(word: Seq<char>, quote: Quote) -> LexModel {
    LexModel { tokens: Seq::empty(), word: Some(word), is_quoted: true, quote }
}

/// The value can stand between quotes of a kind as it is.
pub open spec fn fits_quotes(value: Seq<char>, quote: Quote) -> bool {
    match quote {
        Quote::Bare => false,
        Quote::Single => forall|i: int| 0 <= i < value.len() ==> #[trigger] value[i] != '\'',
        Quote::Double => forall|i: int|
            0 <= i < value.len() ==> #[trigger] value[i] != '"' && value[i] != '$' && value[i]
                != '`' && value[i] != '\\',
    }
}

/// The character that opens and closes quotes of a kind.
pub open spec fn quote_sign(quote: Quote) -> char {
    if quote == Quote::Double {
        '"'
    } else {
        '\''
    }
}

proof fn lemma_quoted_runs(value: Seq<char>, quote: Quote, rest: Seq<char>, count: nat)
    requires
        fits_quotes(value, quote),
        count <= value.len(),
    ensures
        tokens_of(seq![quote_sign(quote)] + value + rest) == lexed(
            seq![quote_sign(quote)] + value + rest,
            count as int + 1,
            in_quotes(value.take(count as int), quote),
        ),
    decreases count,
{
    let text = seq![quote_sign(quote)] + value + rest;
    if count == 0 {
        assert(text[0] == quote_sign(quote));
        assert(value.take(0) =~= Seq::empty());
        assert(nothing_read().quoting(quote) =~= in_quotes(value.take(0), quote));
        assert(step(text, 0, nothing_read()) == Some((nothing_read().quoting(quote), 1int)));
    } else {
        let before = (count - 1) as nat;
        lemma_quoted_runs(value, quote, rest, before);
        let c = value[before as int];
        let state = in_quotes(value.take(before as int), quote);
        assert(text[before as int + 1] == c);
        assert(value.take(count as int) =~= value.take(before as int).push(c));
        assert(state.with(c) =~= in_quotes(value.take(count as int), quote));
        assert(step(text, before as int + 1, state) == Some(
            (state.with(c), before as int + 2),
        ));
    }
}

/// What stands between quotes is one word, whatever it holds; quotes that are not closed are
/// refused. A backslash takes the next character as it is.
pub proof fn lemma_quotes_make_one_word(value: Seq<char>, quote: Quote, c: char)
    requires
        fits_quotes(value, quote),
    ensures
        tokens_of(seq![quote_sign(quote)] + value + seq![quote_sign(quote)]) == Some(
            seq![TokenModel::Word(value)],
        ),
        tokens_of(seq![quote_sign(quote)] + value) is None,
        c != '\n' ==> tokens_of(seq!['\\', c]) == Some(seq![TokenModel::Word(seq![c])]),
{
    let sign = quote_sign(quote);
    let close = seq![sign];
    let text = seq![sign] + value + close;
    let last = value.len() as int + 1;
    assert(value.take(value.len() as int) =~= value);
    lemma_quoted_runs(value, quote, close, value.len());
    assert(text[last] == sign);
    let bare = LexModel { quote: Quote::Bare, ..in_quotes(value, quote) };
    assert(step(text, last, in_quotes(value, quote)) == Some((bare, last + 1)));
    assert(bare.ended().tokens =~= seq![TokenModel::Word(value)]);
    assert(lexed(text, last + 1, bare) == Some(bare.ended().tokens));
    let none = Seq::<char>::empty();
    lemma_quoted_runs(value, quote, none, value.len());
    assert(seq![sign] + value + none =~= seq![sign] + value);
    if c != '\n' {
        let escaped = seq!['\\', c];
        let read = LexModel { is_quoted: true, ..nothing_read().with(c) };
        assert(escaped[0] == '\\' && escaped[1] == c);
        assert(step(escaped, 0, nothing_read()) == Some((read, 2int)));
        assert(read.ended().tokens =~= seq![TokenModel::Word(seq![c])]);
        assert(lexed(escaped, 2, read) == Some(read.ended().tokens));
    }
}

/// Words as tokens.
pub open spec fn as_tokens(words: Seq<Seq<char>>) -> Seq<TokenModel> {
    words.map_values(|word: Seq<char>| TokenModel::Word(word))
}

proof fn lemma_words_are_parsed(
    tokens: Seq<TokenModel>,
    at: int,
    words: Seq<Seq<char>>,
    state: ParseModel,
    count: nat,
)
    requires
        0 <= at,
        at + words.len() <= tokens.len(),
        count <= words.len(),
        state.words.len() == 0,
        forall|i: int| 0 <= i < words.len() ==> #[trigger] tokens[at + i] == TokenModel::Word(words[i]),
    ensures
        parsed(tokens, at, state) == parsed(
            tokens,
            at + count,
            ParseModel { words: words.take(count as int), ..state },
        ),
    decreases count,
{
    if count == 0 {
        assert(words.take(0) =~= state.words);
    } else {
        let before = (count - 1) as nat;
        lemma_words_are_parsed(tokens, at, words, state, before);
        let here = ParseModel { words: words.take(before as int), ..state };
        let next = ParseModel { words: words.take(count as int), ..state };
        assert(tokens[at + before] == TokenModel::Word(words[before as int]));
        assert(words.take(count as int) =~= words.take(before as int).push(words[before as int]));
        assert(here.after(tokens[at + before]) == Some(next));
    }
}

/// The connector that an operator stands for.
pub open spec fn connector_of(token: TokenModel) -> Option<Connector> {
    match token {
        TokenModel::And => Some(Connector::And),
        TokenModel::Or => Some(Connector::Or),
        TokenModel::Sequence => Some(Connector::Sequence),
        _ => None,
    }
}

/// Two commands with an operator between them: `&&`, `||` and `;` connect two items, in their
/// order; `|` makes one pipeline of both.
pub proof fn lemma_operators_connect_commands(
    command: Seq<char>,
    first: Seq<Seq<char>>,
    token: TokenModel,
    second: Seq<Seq<char>>,
)
    requires
        first.len() > 0,
        second.len() > 0,
        tokens_of(command) == Some(as_tokens(first).push(token) + as_tokens(second)),
    ensures
        connector_of(token) is Some ==> {
            &&& program_of(command) is Some
            &&& program_of(command)->Some_0.items == seq![
                ItemModel::Simple(first),
                ItemModel::Simple(second),
            ]
            &&& program_of(command)->Some_0.connectors == seq![connector_of(token)->Some_0]
            &&& simple_words(command) is None
        },
        token == TokenModel::Pipe ==> {
            &&& program_of(command) is Some
            &&& program_of(command)->Some_0.items == seq![ItemModel::Pipeline(seq![first, second])]
            &&& program_of(command)->Some_0.connectors.len() == 0
            &&& simple_words(command) is None
        },
{
    let tokens = as_tokens(first).push(token) + as_tokens(second);
    let middle = first.len() as int;
    assert(tokens.last() == TokenModel::Word(second.last()));
    assert(without_last_ends(tokens) == tokens);
    assert forall|i: int| 0 <= i < first.len() implies #[trigger] tokens[0 + i] == TokenModel::Word(
        first[i],
    ) by {}
    lemma_words_are_parsed(tokens, 0, first, nothing_parsed(), first.len());
    assert(first.take(first.len() as int) =~= first);
    assert(tokens[middle] == token);
    let one = ParseModel { words: first, ..nothing_parsed() };
    assert forall|i: int| 0 <= i < second.len() implies #[trigger] tokens[middle + 1 + i]
        == TokenModel::Word(second[i]) by {}
    assert(second.take(second.len() as int) =~= second);
    if connector_of(token) is Some {
        let connected = one.connected(connector_of(token)->Some_0);
        assert(one.after(token) == Some(connected));
        lemma_words_are_parsed(tokens, middle + 1, second, connected, second.len());
        let two = ParseModel { words: second, ..connected };
        assert(parsed(tokens, tokens.len() as int, two) == Some(two.ended()));
        assert(two.ended().items =~= seq![ItemModel::Simple(first), ItemModel::Simple(second)]);
        assert(two.ended().connectors =~= seq![connector_of(token)->Some_0]);
    }
    if token == TokenModel::Pipe {
        let piped = ParseModel {
            words: Seq::empty(),
            stages: one.stages.push(first),
            ..one
        };
        assert(one.after(token) == Some(piped));
        lemma_words_are_parsed(tokens, middle + 1, second, piped, second.len());
        let two = ParseModel { words: second, ..piped };
        assert(parsed(tokens, tokens.len() as int, two) == Some(two.ended()));
        assert(two.stages.push(second) =~= seq![first, second]);
        assert(two.ended().items =~= seq![ItemModel::Pipeline(seq![first, second])]);
    }
    if connector_of(token) is Some || token == TokenModel::Pipe {
        assert(!(tokens[middle] is Word));
    }
}

/// Words alone are one simple command, and a command that joins both streams is the same command.
pub proof fn lemma_words_are_one_command(command: Seq<char>, words: Seq<Seq<char>>)
    requires
        words.len() > 0,
        tokens_of(command) == Some(as_tokens(words)) || tokens_of(command) == Some(
            as_tokens(words).push(TokenModel::Merge),
        ),
    ensures
        program_of(command) is Some,
        program_of(command)->Some_0.items == seq![ItemModel::Simple(words)],
        program_of(command)->Some_0.connectors.len() == 0,
        tokens_of(command) == Some(as_tokens(words)) ==> simple_words(command) == Some(words),
{
    let tokens = tokens_of(command)->Some_0;
    assert(without_last_ends(tokens) == tokens);
    assert forall|i: int| 0 <= i < words.len() implies #[trigger] tokens[0 + i] == TokenModel::Word(
        words[i],
    ) by {}
    lemma_words_are_parsed(tokens, 0, words, nothing_parsed(), words.len());
    assert(words.take(words.len() as int) =~= words);
    let one = ParseModel { words, ..nothing_parsed() };
    if tokens.len() > words.len() {
        assert(tokens[words.len() as int] == TokenModel::Merge);
        assert(one.after(TokenModel::Merge) == Some(one));
        assert(parsed(tokens, words.len() as int, one) == parsed(
            tokens,
            words.len() as int + 1,
            one,
        ));
    }
    assert(parsed(tokens, tokens.len() as int, one) == Some(one.ended()));
    assert(one.ended().items =~= seq![ItemModel::Simple(words)]);
    if tokens == as_tokens(words) {
        assert(simple_words(command)->Some_0 =~= words);
    }
}

} // verus!
