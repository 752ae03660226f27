//! Commands, pipelines and the connectors between them.
use vstd::prelude::*;

use super::lexer::{Token, TokenModel, token_models, tokens, tokens_of};
use super::{Connector, ItemModel, ShellItem, ShellProgram, SimpleCommand};
use crate::text::texts;

verus! {

/// The contents of some commands.
pub open spec fn stage_models(stages: Seq<SimpleCommand>) -> Seq<Seq<Seq<char>>> {
    stages.map_values(|stage: SimpleCommand| stage@)
}

/// The contents of some items.
pub open spec fn item_models(items: Seq<ShellItem>) -> Seq<ItemModel> {
    items.map_values(|item: ShellItem| item@)
}

/// Some tokens without the ends of commands behind them.
pub open spec fn without_last_ends(tokens: Seq<TokenModel>) -> Seq<TokenModel>
    decreases tokens.len(),
{
    if tokens.len() > 0 && tokens.last() == TokenModel::Sequence {
        without_last_ends(tokens.drop_last())
    } else {
        tokens
    }
}

/// What was parsed of some tokens: the words of the command that has begun, the stages of its
/// pipeline, and the items before it with their connectors.
#[verifier::ext_equal]
pub struct ParseModel {
    pub words: Seq<Seq<char>>,
    pub stages: Seq<Seq<Seq<char>>>,
    pub items: Seq<ItemModel>,
    pub connectors: Seq<Connector>,
}

/// Nothing was parsed.
pub open spec fn nothing_parsed() -> ParseModel {
    ParseModel {
        words: Seq::empty(),
        stages: Seq::empty(),
        items: Seq::empty(),
        connectors: Seq::empty(),
    }
}

impl ParseModel {
    /// The command that has begun as an item.
    pub open spec fn item(self) -> ItemModel {
        if self.stages.len() == 0 {
            ItemModel::Simple(self.words)
        } else {
            ItemModel::Pipeline(self.stages.push(self.words))
        }
    }

    /// The item is complete.
    pub open spec fn ended(self) -> ParseModel {
        ParseModel {
            words: Seq::empty(),
            stages: Seq::empty(),
            items: self.items.push(self.item()),
            connectors: self.connectors,
        }
    }

    /// A connector follows the item.
    pub open spec fn connected(self, connector: Connector) -> ParseModel {
        ParseModel { connectors: self.connectors.push(connector), ..self.ended() }
    }

    /// A token follows. An operator needs a command in front of it.
    pub open spec fn after(self, token: TokenModel) -> Option<ParseModel> {
        match token {
            TokenModel::Word(text) => Some(ParseModel { words: self.words.push(text), ..self }),
            _ => if self.words.len() == 0 {
                None
            } else {
                match token {
                    TokenModel::Merge => Some(self),
                    TokenModel::Pipe => Some(
                        ParseModel {
                            words: Seq::empty(),
                            stages: self.stages.push(self.words),
                            ..self
                        },
                    ),
                    TokenModel::And => Some(self.connected(Connector::And)),
                    TokenModel::Or => Some(self.connected(Connector::Or)),
                    _ => Some(self.connected(Connector::Sequence)),
                }
            },
        }
    }
}

/// The program that some tokens write from a place on.
pub open spec fn parsed(tokens: Seq<TokenModel>, at: int, state: ParseModel) -> Option<ParseModel>
    decreases tokens.len() - at,
{
    if at >= tokens.len() {
        if state.words.len() == 0 {
            None
        } else {
            Some(state.ended())
        }
    } else {
        match state.after(tokens[at]) {
            None => None,
            Some(next) => parsed(tokens, at + 1, next),
        }
    }
}

/// The program that a command writes, or nothing where it is refused.
pub open spec fn program_of(command: Seq<char>) -> Option<ParseModel> {
    match tokens_of(command) {
        None => None,
        Some(tokens) => parsed(without_last_ends(tokens), 0, nothing_parsed()),
    }
}

/// The program is what a command writes.
pub open spec fn is_program(program: ShellProgram, model: ParseModel) -> bool {
    item_models(program.items@) == model.items && program.connectors@ == model.connectors
}

struct ParseState {
    words: Vec<String>,
    stages: Vec<SimpleCommand>,
    items: Vec<ShellItem>,
    connectors: Vec<Connector>,
}

impl ParseState {
    spec fn model(self) -> ParseModel {
        ParseModel {
            words: texts(self.words@),
            stages: stage_models(self.stages@),
            items: item_models(self.items@),
            connectors: self.connectors@,
        }
    }

    fn end_stage(&mut self)
        ensures
            final(self).model() == (ParseModel {
                words: Seq::empty(),
                stages: old(self).model().stages.push(old(self).model().words),
                ..old(self).model()
            }),
    {
        let ghost before = self.stages@;
        let mut words: Vec<String> = Vec::new();
        words.append(&mut self.words);
        let ghost taken = words@;
        assert(taken =~= old(self).words@);
        self.stages.push(SimpleCommand { words });
        proof {
            assert(texts(self.words@) =~= Seq::empty());
            assert(stage_models(self.stages@) =~= stage_models(before).push(texts(taken)));
        }
    }

    fn end_item(&mut self)
        ensures
            final(self).model() == old(self).model().ended(),
    {
        let ghost before = self.items@;
        let ghost start = self.model();
        let simple = self.stages.len() == 0;
        self.end_stage();
        let mut stages: Vec<SimpleCommand> = Vec::new();
        stages.append(&mut self.stages);
        assert(stage_models(stages@) =~= start.stages.push(start.words));
        assert(stage_models(self.stages@) =~= Seq::empty());
        let item = if simple {
            let command = stages.remove(0);
            assert(command@ == start.words) by {
                assert(start.stages.push(start.words)[0] == start.words);
            }
            ShellItem::Simple(command)
        } else {
            ShellItem::Pipeline(stages)
        };
        let ghost model = item@;
        self.items.push(item);
        assert(item_models(self.items@) =~= item_models(before).push(model));
    }

    fn connect(&mut self, connector: Connector)
        ensures
            final(self).model() == old(self).model().connected(connector),
    {
        self.end_item();
        self.connectors.push(connector);
    }

    fn take(&mut self, token: &Token) -> (accepted: bool)
        ensures
            match old(self).model().after(token@) {
                Some(next) => accepted && final(self).model() == next,
                None => !accepted,
            },
    {
        if let Token::Word(text) = token {
            let ghost before = self.words@;
            self.words.push(text.clone());
            assert(texts(self.words@) =~= texts(before).push(text@));
            return true;
        }
        if self.words.len() == 0 {
            return false;
        }
        match token {
            Token::Pipe => self.end_stage(),
            Token::And => self.connect(Connector::And),
            Token::Or => self.connect(Connector::Or),
            Token::Sequence => self.connect(Connector::Sequence),
            _ => {},
        }
        true
    }
}

/// The tokens of a command without the ends of commands behind them.
fn command_tokens(command: &str) -> (result: Result<Vec<Token>, String>)
    requires
        command@.len() < usize::MAX - 4,
    ensures
        match tokens_of(command@) {
            Some(models) => result matches Ok(found) && token_models(found@) == without_last_ends(
                models,
            ),
            None => result matches Err(error) && error@
                == "shell command uses unsupported syntax"@,
        },
{
    let mut found = tokens(command)?;
    let ghost all = token_models(found@);
    let mut trailing: bool = true;
    while trailing && found.len() > 0
        invariant
            without_last_ends(token_models(found@)) == without_last_ends(all),
            !trailing ==> token_models(found@) == without_last_ends(all),
        decreases found@.len() + if trailing { 1nat } else { 0nat },
    {
        let last: usize = found.len() - 1;
        assert(token_models(found@).last() == found@[last as int]@);
        match &found[last] {
            Token::Sequence => {
                let ghost before = found@;
                found.pop();
                assert(token_models(found@) =~= token_models(before).drop_last());
            },
            _ => {
                trailing = false;
            },
        }
    }
    Ok(found)
}

/// Parse a command into its items and connectors.
///
/// # Errors
///
/// Returns an error when the shell would expand, redirect or group something, or when an operator
/// has no command on both sides.
pub fn parse(command: &str) -> (result: Result<ShellProgram, String>)
    requires
        command@.len() < usize::MAX - 4,
    ensures
        match program_of(command@) {
            Some(model) => result matches Ok(program) && is_program(program, model),
            None => result matches Err(error) && error@
                == "shell command uses unsupported syntax"@,
        },
{
    let found = command_tokens(command)?;
    let ghost all = token_models(found@);
    let mut state = ParseState {
        words: Vec::new(),
        stages: Vec::new(),
        items: Vec::new(),
        connectors: Vec::new(),
    };
    proof {
        assert(texts(state.words@) =~= Seq::empty());
        assert(stage_models(state.stages@) =~= Seq::empty());
        assert(item_models(state.items@) =~= Seq::empty());
        assert(state.connectors@ =~= Seq::empty());
    }
    let mut at: usize = 0;
    while at < found.len()
        invariant
            at <= found@.len(),
            all == token_models(found@),
            program_of(command@) == parsed(all, at as int, state.model()),
        decreases found@.len() - at,
    {
        assert(all[at as int] == found@[at as int]@);
        if !state.take(&found[at]) {
            return Err("shell command uses unsupported syntax".to_owned());
        }
        at += 1;
    }
    assert(texts(state.words@).len() == state.words@.len());
    if state.words.len() == 0 {
        return Err("shell command uses unsupported syntax".to_owned());
    }
    state.end_item();
    Ok(ShellProgram { items: state.items, connectors: state.connectors })
}

/// The words of a command that is nothing but words.
pub open spec fn simple_words(command: Seq<char>) -> Option<Seq<Seq<char>>> {
    match tokens_of(command) {
        None => None,
        Some(tokens) => if tokens.len() > 0 && forall|i: int|
            0 <= i < tokens.len() ==> (#[trigger] tokens[i]) is Word {
            Some(tokens.map_values(|token: TokenModel| token->Word_0))
        } else {
            None
        },
    }
}

/// Parse a command that is nothing but words.
///
/// # Errors
///
/// Returns an error when the command is empty or holds an operator, or when the shell would expand,
/// redirect or group something.
pub fn parse_simple_words(command: &str) -> (result: Result<Vec<String>, String>)
    requires
        command@.len() < usize::MAX - 4,
    ensures
        match simple_words(command@) {
            Some(words) => result matches Ok(found) && texts(found@) == words,
            None => result matches Err(error) && error@
                == "shell command uses unsupported syntax"@,
        },
{
    let found = tokens(command)?;
    let ghost all = token_models(found@);
    let mut words: Vec<String> = Vec::new();
    let mut i: usize = 0;
    while i < found.len()
        invariant
            i <= found@.len(),
            all == token_models(found@),
            tokens_of(command@) == Some(all),
            words@.len() == i,
            forall|j: int|
                0 <= j < i ==> (#[trigger] all[j]) is Word && all[j]->Word_0 == words@[j]@,
        decreases found@.len() - i,
    {
        assert(all[i as int] == found@[i as int]@);
        match &found[i] {
            Token::Word(text) => {
                words.push(text.clone());
            },
            _ => {
                return Err("shell command uses unsupported syntax".to_owned());
            },
        }
        i += 1;
    }
    assert(all.len() == found@.len());
    if words.len() == 0 {
        return Err("shell command uses unsupported syntax".to_owned());
    }
    assert(texts(words@) =~= all.map_values(|token: TokenModel| token->Word_0));
    Ok(words)
}

} // verus!
