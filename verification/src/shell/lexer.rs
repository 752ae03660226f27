//! The words and operators of a shell command. Whatever the shell would expand or redirect is
//! refused, so that the words are those that the command gets.
use vstd::prelude::*;

use crate::text::{chars, from_chars};

verus! {

/// A piece of a shell command.
#[derive(Clone, Debug)]
pub enum Token {
    Word(String),
    And,
    Or,
    Sequence,
    Pipe,
    /// Both streams are joined.
    Merge,
}

/// The contents of a [`Token`].
#[verifier::ext_equal]
pub enum TokenModel {
    Word(Seq<char>),
    And,
    Or,
    Sequence,
    Pipe,
    Merge,
}

impl View for Token {
    type V = TokenModel;

    open spec fn view(&self) -> TokenModel {
        match self {
            Token::Word(text) => TokenModel::Word(text@),
            Token::And => TokenModel::And,
            Token::Or => TokenModel::Or,
            Token::Sequence => TokenModel::Sequence,
            Token::Pipe => TokenModel::Pipe,
            Token::Merge => TokenModel::Merge,
        }
    }
}

/// The contents of some tokens.
pub open spec fn token_models(tokens: Seq<Token>) -> Seq<TokenModel> {
    tokens.map_values(|token: Token| token@)
}

/// The quotes that a place in a command stands between.
#[derive(Clone, Copy, Debug, PartialEq, Eq, Structural)]
pub enum Quote {
    Bare,
    Single,
    Double,
}

/// What was read of a command: the tokens, the word that has begun, and the quotes.
#[verifier::ext_equal]
pub struct LexModel {
    pub tokens: Seq<TokenModel>,
    pub word: Option<Seq<char>>,
    pub is_quoted: bool,
    pub quote: Quote,
}

/// Nothing was read.
pub open spec fn nothing_read() -> LexModel {
    LexModel { tokens: Seq::empty(), word: None, is_quoted: false, quote: Quote::Bare }
}

impl LexModel {
    /// The word that has begun, with another character.
    pub open spec fn with(self, c: char) -> LexModel {
        LexModel {
            word: match self.word {
                Some(text) => Some(text.push(c)),
                None => Some(seq![c]),
            },
            ..self
        }
    }

    /// The word that has begun, with a change of the quotes.
    pub open spec fn quoting(self, quote: Quote) -> LexModel {
        LexModel {
            word: match self.word {
                Some(text) => Some(text),
                None => Some(Seq::empty()),
            },
            is_quoted: true,
            quote,
            ..self
        }
    }

    /// The word that has begun is complete.
    pub open spec fn ended(self) -> LexModel {
        match self.word {
            Some(text) => LexModel {
                tokens: self.tokens.push(TokenModel::Word(text)),
                word: None,
                is_quoted: false,
                quote: self.quote,
            },
            None => self,
        }
    }

    /// An operator follows.
    pub open spec fn then_token(self, token: TokenModel) -> LexModel {
        LexModel { tokens: self.ended().tokens.push(token), ..self.ended() }
    }
}

/// The character stands for more than itself outside of quotes, wherever it stands.
pub open spec fn is_special(c: char) -> bool {
    c == '<' || c == '>' || c == '(' || c == ')' || c == '$' || c == '`' || c == '*' || c == '?'
        || c == '[' || c == ']' || c == '{' || c == '}' || (c as int) < 32 || (c as int) == 127
}

/// The character stands for more than itself at the beginning of a word.
pub open spec fn is_special_first(c: char) -> bool {
    c == '#' || c == '~' || c == '!'
}

/// A word ends before the character.
pub open spec fn is_boundary(c: char) -> bool {
    c == ' ' || c == '\t' || c == '\n' || c == ';' || c == '&' || c == '|'
}

/// The command joins both streams at a place: `2>&1` stands there as a word of its own.
pub open spec fn is_merge(text: Seq<char>, at: int, state: LexModel) -> bool {
    &&& state.word == Some(seq!['2'])
    &&& !state.is_quoted
    &&& at + 2 < text.len()
    &&& text[at] == '>'
    &&& text[at + 1] == '&'
    &&& text[at + 2] == '1'
    &&& (at + 3 == text.len() || is_boundary(text[at + 3]))
}

/// What one place of a command does: what was read then, and the next place; or nothing, where the
/// command is refused.
pub open spec fn step(text: Seq<char>, at: int, state: LexModel) -> Option<(LexModel, int)> {
    let c = text[at];
    let next = if at + 1 < text.len() {
        Some(text[at + 1])
    } else {
        None
    };
    match state.quote {
        Quote::Single => if c == '\'' {
            Some((LexModel { quote: Quote::Bare, ..state }, at + 1))
        } else {
            Some((state.with(c), at + 1))
        },
        Quote::Double => if c == '"' {
            Some((LexModel { quote: Quote::Bare, ..state }, at + 1))
        } else if c == '$' || c == '`' {
            None
        } else if c == '\\' {
            match next {
                None => None,
                Some(escaped) => if escaped == '\n' {
                    None
                } else if escaped == '$' || escaped == '`' || escaped == '"' || escaped == '\\' {
                    Some((state.with(escaped), at + 2))
                } else {
                    Some((state.with(c), at + 1))
                },
            }
        } else {
            Some((state.with(c), at + 1))
        },
        Quote::Bare => if c == ' ' || c == '\t' {
            Some((state.ended(), at + 1))
        } else if c == '\n' || c == ';' {
            Some((state.then_token(TokenModel::Sequence), at + 1))
        } else if c == '\'' {
            Some((state.quoting(Quote::Single), at + 1))
        } else if c == '"' {
            Some((state.quoting(Quote::Double), at + 1))
        } else if c == '\\' {
            match next {
                None => None,
                Some(escaped) => if escaped == '\n' {
                    None
                } else {
                    Some((LexModel { is_quoted: true, ..state.with(escaped) }, at + 2))
                },
            }
        } else if c == '&' {
            if next == Some('&') {
                Some((state.then_token(TokenModel::And), at + 2))
            } else {
                None
            }
        } else if c == '|' {
            if next == Some('|') {
                Some((state.then_token(TokenModel::Or), at + 2))
            } else if next == Some('&') {
                None
            } else {
                Some((state.then_token(TokenModel::Pipe), at + 1))
            }
        } else if is_merge(text, at, state) {
            Some(
                (
                    LexModel {
                        tokens: state.tokens.push(TokenModel::Merge),
                        word: None,
                        is_quoted: false,
                        quote: Quote::Bare,
                    },
                    at + 3,
                ),
            )
        } else if is_special(c) || (state.word is None && is_special_first(c)) {
            None
        } else {
            Some((state.with(c), at + 1))
        },
    }
}

/// The tokens of a command from a place on.
pub open spec fn lexed(text: Seq<char>, at: int, state: LexModel) -> Option<Seq<TokenModel>>
    decreases text.len() - at,
{
    if at >= text.len() {
        if state.quote == Quote::Bare {
            Some(state.ended().tokens)
        } else {
            None
        }
    } else {
        match step(text, at, state) {
            None => None,
            Some((after, next)) => if next > at {
                lexed(text, next, after)
            } else {
                None
            },
        }
    }
}

/// The tokens of a command, or nothing where it is refused.
pub open spec fn tokens_of(command: Seq<char>) -> Option<Seq<TokenModel>> {
    lexed(command, 0, nothing_read())
}

struct LexState {
    tokens: Vec<Token>,
    word: Option<Vec<char>>,
    is_quoted: bool,
    quote: Quote,
}

impl LexState {
    spec fn model(self) -> LexModel {
        LexModel {
            tokens: token_models(self.tokens@),
            word: match self.word {
                Some(text) => Some(text@),
                None => None,
            },
            is_quoted: self.is_quoted,
            quote: self.quote,
        }
    }

    fn add(&mut self, c: char)
        ensures
            final(self).model() == old(self).model().with(c),
    {
        let mut text: Vec<char> = match self.word.take() {
            Some(text) => text,
            None => Vec::new(),
        };
        let ghost before = text@;
        text.push(c);
        proof {
            if old(self).word is None {
                assert(text@ =~= seq![c]);
            }
        }
        self.word = Some(text);
    }

    fn begin_quote(&mut self, quote: Quote)
        ensures
            final(self).model() == old(self).model().quoting(quote),
    {
        let text: Vec<char> = match self.word.take() {
            Some(text) => text,
            None => Vec::new(),
        };
        proof {
            if old(self).word is None {
                assert(text@ =~= Seq::empty());
            }
        }
        self.word = Some(text);
        self.is_quoted = true;
        self.quote = quote;
    }

    fn end_word(&mut self)
        ensures
            final(self).model() == old(self).model().ended(),
    {
        let ghost before = self.tokens@;
        match self.word.take() {
            Some(text) => {
                let word = from_chars(text.as_slice());
                self.tokens.push(Token::Word(word));
                self.is_quoted = false;
                proof {
                    assert(token_models(self.tokens@) =~= token_models(before).push(
                        TokenModel::Word(text@),
                    ));
                }
            },
            None => {},
        }
    }

    fn operator(&mut self, token: Token)
        ensures
            final(self).model() == old(self).model().then_token(token@),
    {
        self.end_word();
        let ghost before = self.tokens@;
        self.tokens.push(token);
        assert(token_models(self.tokens@) =~= token_models(before).push(token@));
    }

    fn merge(&mut self)
        ensures
            final(self).model() == (LexModel {
                tokens: old(self).model().tokens.push(TokenModel::Merge),
                word: None,
                is_quoted: false,
                quote: Quote::Bare,
            }),
    {
        let ghost before = self.tokens@;
        self.word = None;
        self.is_quoted = false;
        self.quote = Quote::Bare;
        self.tokens.push(Token::Merge);
        assert(token_models(self.tokens@) =~= token_models(before).push(TokenModel::Merge));
    }

    fn is_plain_two(&self) -> (answer: bool)
        ensures
            answer == (self.model().word == Some(seq!['2']) && !self.is_quoted),
    {
        match &self.word {
            Some(text) => {
                let two = text.len() == 1 && text[0] == '2' && !self.is_quoted;
                proof {
                    if text@.len() == 1 && text@[0] == '2' {
                        assert(text@ =~= seq!['2']);
                    }
                }
                two
            },
            None => false,
        }
    }
}

fn special(c: char) -> (answer: bool)
    ensures
        answer == is_special(c),
{
    c == '<' || c == '>' || c == '(' || c == ')' || c == '$' || c == '`' || c == '*' || c == '?'
        || c == '[' || c == ']' || c == '{' || c == '}' || (c as u32) < 32 || (c as u32) == 127
}

fn boundary(c: char) -> (answer: bool)
    ensures
        answer == is_boundary(c),
{
    c == ' ' || c == '\t' || c == '\n' || c == ';' || c == '&' || c == '|'
}

fn merge_at(text: &Vec<char>, at: usize, state: &LexState) -> (answer: bool)
    requires
        at < text@.len() < usize::MAX - 4,
    ensures
        answer == is_merge(text@, at as int, state.model()),
{
    state.is_plain_two() && at + 2 < text.len() && text[at] == '>' && text[at + 1] == '&' && text[at
        + 2] == '1' && (at + 3 == text.len() || boundary(text[at + 3]))
}

fn take_step(text: &Vec<char>, at: usize, state: &mut LexState) -> (next: Option<usize>)
    requires
        at < text@.len() < usize::MAX - 4,
    ensures
        match step(text@, at as int, old(state).model()) {
            Some((after, place)) => next == Some(place as usize) && final(state).model() == after
                && at < place <= text@.len(),
            None => next is None,
        },
{
    let c: char = text[at];
    let following: Option<char> = if at + 1 < text.len() {
        Some(text[at + 1])
    } else {
        None
    };
    match state.quote {
        Quote::Single => {
            if c == '\'' {
                state.quote = Quote::Bare;
            } else {
                state.add(c);
            }
            Some(at + 1)
        },
        Quote::Double => {
            if c == '"' {
                state.quote = Quote::Bare;
                return Some(at + 1);
            }
            if c == '$' || c == '`' {
                return None;
            }
            if c == '\\' {
                let escaped: char = match following {
                    None => {
                        return None;
                    },
                    Some(escaped) => escaped,
                };
                if escaped == '\n' {
                    return None;
                }
                if escaped == '$' || escaped == '`' || escaped == '"' || escaped == '\\' {
                    state.add(escaped);
                    return Some(at + 2);
                }
            }
            state.add(c);
            Some(at + 1)
        },
        Quote::Bare => {
            if c == ' ' || c == '\t' {
                state.end_word();
                return Some(at + 1);
            }
            if c == '\n' || c == ';' {
                state.operator(Token::Sequence);
                return Some(at + 1);
            }
            if c == '\'' {
                state.begin_quote(Quote::Single);
                return Some(at + 1);
            }
            if c == '"' {
                state.begin_quote(Quote::Double);
                return Some(at + 1);
            }
            if c == '\\' {
                let escaped: char = match following {
                    None => {
                        return None;
                    },
                    Some(escaped) => escaped,
                };
                if escaped == '\n' {
                    return None;
                }
                state.add(escaped);
                state.is_quoted = true;
                return Some(at + 2);
            }
            if c == '&' {
                return match following {
                    Some('&') => {
                        state.operator(Token::And);
                        Some(at + 2)
                    },
                    _ => None,
                };
            }
            if c == '|' {
                return match following {
                    Some('|') => {
                        state.operator(Token::Or);
                        Some(at + 2)
                    },
                    Some('&') => None,
                    _ => {
                        state.operator(Token::Pipe);
                        Some(at + 1)
                    },
                };
            }
            if merge_at(text, at, state) {
                state.merge();
                return Some(at + 3);
            }
            if special(c) || (state.word.is_none() && (c == '#' || c == '~' || c == '!')) {
                return None;
            }
            state.add(c);
            Some(at + 1)
        },
    }
}

/// Split a command into tokens.
///
/// # Errors
///
/// Returns an error when the shell would expand, redirect or group something, or when a quote is
/// not closed.
pub fn tokens(command: &str) -> (result: Result<Vec<Token>, String>)
    requires
        command@.len() < usize::MAX - 4,
    ensures
        match tokens_of(command@) {
            Some(models) => result matches Ok(found) && token_models(found@) == models,
            None => result matches Err(error) && error@
                == "shell command uses unsupported syntax"@,
        },
{
    let text = chars(command);
    let mut state = LexState {
        tokens: Vec::new(),
        word: None,
        is_quoted: false,
        quote: Quote::Bare,
    };
    let mut at: usize = 0;
    assert(token_models(state.tokens@) =~= Seq::empty());
    while at < text.len()
        invariant
            at <= text@.len() < usize::MAX - 4,
            text@ == command@,
            tokens_of(command@) == lexed(command@, at as int, state.model()),
        decreases text@.len() - at,
    {
        match take_step(&text, at, &mut state) {
            Some(next) => {
                at = next;
            },
            None => {
                return Err("shell command uses unsupported syntax".to_owned());
            },
        }
    }
    match state.quote {
        Quote::Bare => {
            state.end_word();
            Ok(state.tokens)
        },
        _ => Err("shell command uses unsupported syntax".to_owned()),
    }
}

} // verus!
