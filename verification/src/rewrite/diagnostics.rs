//! The programs whose own diagnostics may stand among reduced lines.
use vstd::prelude::*;

use crate::bytes::{lit, starts_with};
use crate::text::same_text;

verus! {

/// The line-preserving programs whose own diagnostics may stand among reduced lines.
#[derive(Clone, Copy, Debug, PartialEq, Eq, Structural)]
pub struct TransformDiagnostics {
    cat: bool,
    tee: bool,
    head: bool,
    tail: bool,
    sort: bool,
    uniq: bool,
}

/// The set of program names that a [`TransformDiagnostics`] holds.
#[verifier::ext_equal]
pub struct TransformPrograms {
    pub cat: bool,
    pub tee: bool,
    pub head: bool,
    pub tail: bool,
    pub sort: bool,
    pub uniq: bool,
}

impl TransformPrograms {
    /// No program.
    pub open spec fn none() -> TransformPrograms {
        TransformPrograms {
            cat: false,
            tee: false,
            head: false,
            tail: false,
            sort: false,
            uniq: false,
        }
    }

    /// The set with one more program; an unknown name adds nothing.
    pub open spec fn with(self, program: Seq<char>) -> TransformPrograms {
        TransformPrograms {
            cat: self.cat || program == "cat"@,
            tee: self.tee || program == "tee"@,
            head: self.head || program == "head"@,
            tail: self.tail || program == "tail"@,
            sort: self.sort || program == "sort"@,
            uniq: self.uniq || program == "uniq"@,
        }
    }

    /// The programs of either set.
    pub open spec fn merged(self, other: TransformPrograms) -> TransformPrograms {
        TransformPrograms {
            cat: self.cat || other.cat,
            tee: self.tee || other.tee,
            head: self.head || other.head,
            tail: self.tail || other.tail,
            sort: self.sort || other.sort,
            uniq: self.uniq || other.uniq,
        }
    }

    /// The line is a diagnostic of one of the programs.
    pub open spec fn names(self, line: Seq<u8>) -> bool {
        ||| self.cat && crate::bytes::has_prefix(line, lit("cat:"))
        ||| self.tee && crate::bytes::has_prefix(line, lit("tee:"))
        ||| self.head && crate::bytes::has_prefix(line, lit("head:"))
        ||| self.tail && crate::bytes::has_prefix(line, lit("tail:"))
        ||| self.sort && crate::bytes::has_prefix(line, lit("sort:"))
        ||| self.uniq && crate::bytes::has_prefix(line, lit("uniq:"))
    }
}

impl View for TransformDiagnostics {
    type V = TransformPrograms;

    closed spec fn view(&self) -> TransformPrograms {
        TransformPrograms {
            cat: self.cat,
            tee: self.tee,
            head: self.head,
            tail: self.tail,
            sort: self.sort,
            uniq: self.uniq,
        }
    }
}

impl Default for TransformDiagnostics {
    fn default() -> (diagnostics: Self)
        ensures
            diagnostics@ == TransformPrograms::none(),
    {
        TransformDiagnostics {
            cat: false,
            tee: false,
            head: false,
            tail: false,
            sort: false,
            uniq: false,
        }
    }
}

impl TransformDiagnostics {
    /// Add a program.
    pub(crate) fn insert(&mut self, program: &str)
        ensures
            final(self)@ == old(self)@.with(program@),
    {
        self.cat = self.cat || same_text(program, "cat");
        self.tee = self.tee || same_text(program, "tee");
        self.head = self.head || same_text(program, "head");
        self.tail = self.tail || same_text(program, "tail");
        self.sort = self.sort || same_text(program, "sort");
        self.uniq = self.uniq || same_text(program, "uniq");
    }

    /// Add the programs of another set.
    pub(crate) fn merge(&mut self, other: Self)
        ensures
            final(self)@ == old(self)@.merged(other@),
    {
        self.cat = self.cat || other.cat;
        self.tee = self.tee || other.tee;
        self.head = self.head || other.head;
        self.tail = self.tail || other.tail;
        self.sort = self.sort || other.sort;
        self.uniq = self.uniq || other.uniq;
    }

    /// Whether the line is a diagnostic of one of the programs.
    #[must_use]
    pub fn matches_line(self, line: &[u8]) -> (found: bool)
        ensures
            found == self@.names(line@),
    {
        (self.cat && starts_with(line, "cat:".as_bytes())) || (self.tee && starts_with(
            line,
            "tee:".as_bytes(),
        )) || (self.head && starts_with(line, "head:".as_bytes())) || (self.tail && starts_with(
            line,
            "tail:".as_bytes(),
        )) || (self.sort && starts_with(line, "sort:".as_bytes())) || (self.uniq && starts_with(
            line,
            "uniq:".as_bytes(),
        ))
    }
}

} // verus!
