//! Shell commands, and a parser that takes only what it is sure of.
use vstd::prelude::*;

use crate::text::texts;

pub mod laws;
pub mod lexer;
pub mod parser;

pub use parser::{parse, parse_simple_words};

verus! {

/// What stands between two commands.
#[derive(Clone, Copy, Debug, PartialEq, Eq, Structural)]
pub enum Connector {
    And,
    Or,
    Sequence,
}

/// A command without operators: its words.
#[derive(Clone, Debug)]
pub struct SimpleCommand {
    pub words: Vec<String>,
}

impl View for SimpleCommand {
    type V = Seq<Seq<char>>;

    open spec fn view(&self) -> Seq<Seq<char>> {
        texts(self.words@)
    }
}

/// A command or a pipeline of commands.
#[derive(Clone, Debug)]
pub enum ShellItem {
    Simple(SimpleCommand),
    Pipeline(Vec<SimpleCommand>),
}

/// The contents of a [`ShellItem`].
#[verifier::ext_equal]
pub enum ItemModel {
    Simple(Seq<Seq<char>>),
    Pipeline(Seq<Seq<Seq<char>>>),
}

impl View for ShellItem {
    type V = ItemModel;

    open spec fn view(&self) -> ItemModel {
        match self {
            ShellItem::Simple(command) => ItemModel::Simple(command@),
            ShellItem::Pipeline(stages) => ItemModel::Pipeline(
                stages@.map_values(|stage: SimpleCommand| stage@),
            ),
        }
    }
}

/// Items in sequence, with a connector between each two.
#[derive(Clone, Debug)]
pub struct ShellProgram {
    pub items: Vec<ShellItem>,
    pub connectors: Vec<Connector>,
}

} // verus!
