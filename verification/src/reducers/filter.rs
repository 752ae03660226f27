//! Terminal control sequences and literal line patterns.
use vstd::prelude::*;

use super::bounded::{LineModel, LineView};
use crate::bytes::{
    contains, contains_any_folded, contains_folded, ends_with, is_at_folded, same_bytes,
    starts_with, starts_with_any, starts_with_folded, strip_line_ending, trim_blank_end,
    trim_blank_start,
};
use crate::rule_pack::model::{LinePattern, PatternCase, PatternKind, PatternTrim};

verus! {

/// Where a byte stream stands with respect to terminal control sequences.
#[derive(Clone, Copy, Debug, PartialEq, Eq, Structural)]
pub enum AnsiState {
    Ground,
    Escape,
    Csi,
    Osc,
    OscEscape,
}

/// The state after one byte, and whether the byte is visible. Line breaks are always visible
/// and never end a control sequence.
pub open spec fn ansi_step(state: AnsiState, byte: u8) -> (AnsiState, bool) {
    if byte == 13 || byte == 10 {
        (state, true)
    } else {
        match state {
            AnsiState::Ground => if byte == 0x1b {
                (AnsiState::Escape, false)
            } else {
                (AnsiState::Ground, true)
            },
            AnsiState::Escape => (
                if byte == 91 {
                    AnsiState::Csi
                } else if byte == 93 {
                    AnsiState::Osc
                } else {
                    AnsiState::Ground
                },
                false,
            ),
            AnsiState::Csi => (
                if 0x40 <= byte <= 0x7e {
                    AnsiState::Ground
                } else {
                    AnsiState::Csi
                },
                false,
            ),
            AnsiState::Osc => (
                if byte == 0x07 {
                    AnsiState::Ground
                } else if byte == 0x1b {
                    AnsiState::OscEscape
                } else {
                    AnsiState::Osc
                },
                false,
            ),
            AnsiState::OscEscape => (
                if byte == 92 {
                    AnsiState::Ground
                } else if byte == 0x1b {
                    AnsiState::OscEscape
                } else {
                    AnsiState::Osc
                },
                false,
            ),
        }
    }
}

/// The state after some bytes, and the bytes among them that are visible.
pub open spec fn ansi_run(state: AnsiState, input: Seq<u8>) -> (AnsiState, Seq<u8>)
    decreases input.len(),
{
    if input.len() == 0 {
        (state, Seq::empty())
    } else {
        let (before, shown) = ansi_run(state, input.drop_last());
        let (after, visible) = ansi_step(before, input.last());
        (
            after,
            if visible {
                shown.push(input.last())
            } else {
                shown
            },
        )
    }
}

/// Control sequences are removed the same way wherever the input is cut.
pub proof fn lemma_ansi_ignores_chunk_boundaries(
    state: AnsiState,
    first: Seq<u8>,
    second: Seq<u8>,
)
    ensures
        ansi_run(state, first + second) == ({
            let (middle, shown) = ansi_run(state, first);
            let (end, rest) = ansi_run(middle, second);
            (end, shown + rest)
        }),
    decreases second.len(),
{
    let (middle, shown) = ansi_run(state, first);
    if second.len() == 0 {
        assert(first + second =~= first);
        assert(shown + Seq::<u8>::empty() =~= shown);
    } else {
        lemma_ansi_ignores_chunk_boundaries(state, first, second.drop_last());
        assert((first + second).drop_last() =~= first + second.drop_last());
        let (before, rest) = ansi_run(middle, second.drop_last());
        assert((shown + rest).push(second.last()) =~= shown + rest.push(second.last()));
    }
}

/// Removes terminal control sequences from a byte stream.
#[derive(Debug)]
pub struct AnsiStripper {
    state: AnsiState,
}

impl View for AnsiStripper {
    type V = AnsiState;

    closed spec fn view(&self) -> AnsiState {
        self.state
    }
}

impl AnsiStripper {
    /// A stripper outside any control sequence.
    #[must_use]
    pub fn new() -> (stripper: Self)
        ensures
            stripper@ == AnsiState::Ground,
    {
        AnsiStripper { state: AnsiState::Ground }
    }

    /// Take one byte and hand it back if it is visible.
    pub fn push_byte(&mut self, byte: u8) -> (visible: Option<u8>)
        ensures
            final(self)@ == ansi_step(old(self)@, byte).0,
            visible == if ansi_step(old(self)@, byte).1 {
                Some(byte)
            } else {
                None
            },
    {
        if byte == 13 || byte == 10 {
            return Some(byte);
        }
        match self.state {
            AnsiState::Ground => {
                if byte != 0x1b {
                    return Some(byte);
                }
                self.state = AnsiState::Escape;
            },
            AnsiState::Escape => {
                self.state = if byte == 91 {
                    AnsiState::Csi
                } else if byte == 93 {
                    AnsiState::Osc
                } else {
                    AnsiState::Ground
                };
            },
            AnsiState::Csi => {
                if 0x40 <= byte && byte <= 0x7e {
                    self.state = AnsiState::Ground;
                }
            },
            AnsiState::Osc => {
                if byte == 0x07 {
                    self.state = AnsiState::Ground;
                } else if byte == 0x1b {
                    self.state = AnsiState::OscEscape;
                }
            },
            AnsiState::OscEscape => {
                if byte == 92 {
                    self.state = AnsiState::Ground;
                } else if byte != 0x1b {
                    self.state = AnsiState::Osc;
                }
            },
        }
        None
    }
}

/// The pattern can be compared with a line: a case-sensitive search needs something to find.
pub open spec fn usable(pattern: LinePattern) -> bool {
    pattern.kind == PatternKind::Contains && pattern.case == PatternCase::Sensitive
        ==> pattern.value@.len() > 0
}

/// Every pattern can be compared with a line.
pub open spec fn all_usable(patterns: Seq<LinePattern>) -> bool {
    forall|i: int| 0 <= i < patterns.len() ==> usable(#[trigger] patterns[i])
}

/// `value` stands in `body` at the place that `kind` names, up to `case`.
pub open spec fn stands_in(
    body: Seq<u8>,
    value: Seq<u8>,
    case: PatternCase,
    kind: PatternKind,
) -> bool {
    match (case, kind) {
        (PatternCase::Sensitive, PatternKind::Exact) => body == value,
        (PatternCase::Sensitive, PatternKind::Prefix) => crate::bytes::has_prefix(body, value),
        (PatternCase::Sensitive, PatternKind::Suffix) => crate::bytes::has_suffix(body, value),
        (PatternCase::Sensitive, PatternKind::Contains) => crate::bytes::has_infix(body, value),
        (PatternCase::AsciiInsensitive, PatternKind::Exact) => crate::bytes::folded(body)
            == crate::bytes::folded(value),
        (PatternCase::AsciiInsensitive, PatternKind::Prefix) => crate::bytes::has_prefix_folded(
            body,
            value,
        ),
        (PatternCase::AsciiInsensitive, PatternKind::Suffix) => crate::bytes::has_suffix(
            crate::bytes::folded(body),
            crate::bytes::folded(value),
        ),
        (PatternCase::AsciiInsensitive, PatternKind::Contains) => crate::bytes::has_infix_folded(
            body,
            value,
        ),
    }
}

/// `body` without the blanks that `trim` names.
pub open spec fn trimmed(body: Seq<u8>, trim: PatternTrim) -> Seq<u8> {
    match trim {
        PatternTrim::Untrimmed => body,
        PatternTrim::Start => crate::bytes::without_leading_blanks(body),
        PatternTrim::Both => crate::bytes::without_trailing_blanks(
            crate::bytes::without_leading_blanks(body),
        ),
    }
}

/// The pattern matches the line. Of a shortened line only the kept end that the pattern
/// speaks of is compared, and no exact pattern matches it.
pub open spec fn pattern_holds(pattern: LinePattern, line: LineModel) -> bool {
    let value = vstd::utf8::encode_utf8(pattern.value@);
    match pattern.kind {
        PatternKind::Exact => !line.truncated && stands_in(
            trimmed(crate::bytes::without_line_ending(line.prefix), pattern.trim),
            value,
            pattern.case,
            PatternKind::Exact,
        ),
        PatternKind::Prefix | PatternKind::Contains => {
            let body = crate::bytes::without_line_ending(line.prefix);
            stands_in(
                if !line.truncated {
                    trimmed(body, pattern.trim)
                } else if pattern.trim == PatternTrim::Untrimmed {
                    body
                } else {
                    crate::bytes::without_leading_blanks(body)
                },
                value,
                pattern.case,
                pattern.kind,
            )
        },
        PatternKind::Suffix => {
            let body = crate::bytes::without_line_ending(line.ending_bytes());
            stands_in(
                if !line.truncated {
                    trimmed(body, pattern.trim)
                } else if pattern.trim == PatternTrim::Both {
                    crate::bytes::without_trailing_blanks(body)
                } else {
                    body
                },
                value,
                pattern.case,
                PatternKind::Suffix,
            )
        },
    }
}

/// One of the patterns matches the line.
pub open spec fn some_pattern_holds(patterns: Seq<LinePattern>, line: LineModel) -> bool {
    exists|i: int| 0 <= i < patterns.len() && pattern_holds(#[trigger] patterns[i], line)
}

/// A line filter keeps the line: nothing drops it, and some keep pattern matches, or there is
/// none, or the line was shortened.
pub open spec fn filter_keeps(
    line: LineModel,
    drop: Seq<LinePattern>,
    keep: Seq<LinePattern>,
) -> bool {
    &&& !some_pattern_holds(drop, line)
    &&& keep.len() == 0 || some_pattern_holds(keep, line) || line.truncated
}

fn any_matches(patterns: &[LinePattern], line: &LineView) -> (found: bool)
    requires
        all_usable(patterns@),
    ensures
        found == some_pattern_holds(patterns@, line@),
{
    let mut i: usize = 0;
    while i < patterns.len()
        invariant
            i <= patterns.len(),
            all_usable(patterns@),
            forall|j: int| 0 <= j < i ==> !pattern_holds(#[trigger] patterns@[j], line@),
        decreases patterns.len() - i,
    {
        if pattern_matches(&patterns[i], line) {
            return true;
        }
        i += 1;
    }
    false
}

/// Whether a line filter keeps the line.
#[must_use]
pub fn line_filter_keeps(line: &LineView, drop: &[LinePattern], keep: &[LinePattern]) -> (kept:
    bool)
    requires
        all_usable(drop@),
        all_usable(keep@),
    ensures
        kept == filter_keeps(line@, drop@, keep@),
{
    if any_matches(drop, line) {
        return false;
    }
    keep.len() == 0 || any_matches(keep, line) || line.truncated
}

/// A line of Cargo test output that is not mere progress.
pub open spec fn cargo_test_line_counts(line: Seq<u8>) -> bool {
    let body = super::classify::trimmed_body(line);
    ||| !crate::bytes::has_any_prefix(
        body,
        seq!["Compiling ", "Checking ", "Fresh ", "Downloaded ", "Downloading "],
    )
    ||| crate::bytes::has_any_infix_folded(
        body,
        seq!["error", "failed", "failure", "warning", "panic", "test result"],
    )
}

/// Whether a line of Cargo test output is more than progress.
#[must_use]
pub fn cargo_test_keeps(line: &LineView) -> (kept: bool)
    ensures
        kept == cargo_test_line_counts(line@.prefix),
{
    let body = trim_blank_start(strip_line_ending(line.prefix.as_slice()));
    !starts_with_any(body, &["Compiling ", "Checking ", "Fresh ", "Downloaded ", "Downloading "])
        || contains_any_folded(
        body,
        &["error", "failed", "failure", "warning", "panic", "test result"],
    )
}

/// Whether the pattern matches the line.
#[must_use]
pub fn pattern_matches(pattern: &LinePattern, line: &LineView) -> (matched: bool)
    requires
        usable(*pattern),
    ensures
        matched == pattern_holds(*pattern, line@),
{
    proof {
        if pattern.value@.len() > 0 {
            vstd::utf8::encode_utf8_first_scalar(pattern.value@);
        }
    }
    let value: &[u8] = pattern.value.as_str().as_bytes();
    match pattern.kind {
        PatternKind::Exact => {
            if line.truncated {
                return false;
            }
            compare(
                apply_trim(strip_line_ending(line.prefix.as_slice()), pattern.trim),
                value,
                pattern.case,
                PatternKind::Exact,
            )
        },
        PatternKind::Prefix | PatternKind::Contains => {
            let body = strip_line_ending(line.prefix.as_slice());
            let body = if !line.truncated {
                apply_trim(body, pattern.trim)
            } else if pattern.trim == PatternTrim::Untrimmed {
                body
            } else {
                trim_blank_start(body)
            };
            compare(body, value, pattern.case, pattern.kind)
        },
        PatternKind::Suffix => {
            let tail = line.tail_bytes();
            let body = strip_line_ending(tail.as_slice());
            let body = if !line.truncated {
                apply_trim(body, pattern.trim)
            } else if pattern.trim == PatternTrim::Both {
                trim_blank_end(body)
            } else {
                body
            };
            compare(body, value, pattern.case, PatternKind::Suffix)
        },
    }
}

fn compare(body: &[u8], value: &[u8], case: PatternCase, kind: PatternKind) -> (matched: bool)
    ensures
        matched == stands_in(body@, value@, case, kind),
{
    match case {
        PatternCase::Sensitive => match kind {
            PatternKind::Exact => same_bytes(body, value),
            PatternKind::Prefix => starts_with(body, value),
            PatternKind::Suffix => ends_with(body, value),
            PatternKind::Contains => contains(body, value),
        },
        PatternCase::AsciiInsensitive => match kind {
            PatternKind::Exact => {
                if body.len() != value.len() {
                    assert(crate::bytes::folded(body@).len() != crate::bytes::folded(value@).len());
                    return false;
                }
                assert(crate::bytes::folded(body@).subrange(0, value@.len() as int)
                    =~= crate::bytes::folded(body@));
                is_at_folded(body, value, 0)
            },
            PatternKind::Prefix => starts_with_folded(body, value),
            PatternKind::Suffix => {
                if value.len() > body.len() {
                    return false;
                }
                is_at_folded(body, value, body.len() - value.len())
            },
            PatternKind::Contains => contains_folded(body, value),
        },
    }
}

fn apply_trim(body: &[u8], trim: PatternTrim) -> (result: &[u8])
    ensures
        result@ == trimmed(body@, trim),
{
    match trim {
        PatternTrim::Untrimmed => body,
        PatternTrim::Start => trim_blank_start(body),
        PatternTrim::Both => trim_blank_end(trim_blank_start(body)),
    }
}

} // verus!
