//! How lines of output are worded, in terms of their bytes alone.
use vstd::prelude::*;

use super::classify::trimmed_body;
use crate::bytes::{
    folded, has_infix, has_infix_folded, has_prefix, has_prefix_folded, has_suffix, lit, lower,
    occurs_at, without_leading_blanks, without_line_ending,
};

verus! {

/// Two bytes are the same letter, or the same byte.
pub open spec fn same_letter(left: u8, right: u8) -> bool {
    ||| left == right
    ||| 65 <= left <= 90 && right == left + 32
    ||| 65 <= right <= 90 && left == right + 32
}

/// The word stands in the line at an offset, up to ASCII case.
pub open spec fn word_at(line: Seq<u8>, word: Seq<u8>, at: int) -> bool {
    &&& 0 <= at
    &&& at + word.len() <= line.len()
    &&& forall|i: int| 0 <= i < word.len() ==> same_letter(#[trigger] line[at + i], word[i])
}

/// The word stands in the line at an offset, letter for letter.
pub open spec fn exact_word_at(line: Seq<u8>, word: Seq<u8>, at: int) -> bool {
    &&& 0 <= at
    &&& at + word.len() <= line.len()
    &&& forall|i: int| 0 <= i < word.len() ==> #[trigger] line[at + i] == word[i]
}

/// The first bytes of a line are spaces and tabs.
pub open spec fn is_indented(line: Seq<u8>, at: int) -> bool {
    forall|i: int| 0 <= i < at ==> #[trigger] line[i] == 32 || line[i] == 9
}

/// The line begins with the word, after spaces and tabs and up to ASCII case.
pub open spec fn opens(line: Seq<u8>, word: &str) -> bool {
    exists|at: int| #[trigger] word_at(line, lit(word), at) && is_indented(line, at)
}

/// The line begins with the word, after spaces and tabs, letter for letter.
pub open spec fn opens_exactly(line: Seq<u8>, word: &str) -> bool {
    exists|at: int| #[trigger] exact_word_at(line, lit(word), at) && is_indented(line, at)
}

/// The line begins with the word at its very first byte, letter for letter.
pub open spec fn starts(line: Seq<u8>, word: &str) -> bool {
    exact_word_at(line, lit(word), 0)
}

/// The line begins with the word at its very first byte, up to ASCII case.
pub open spec fn starts_folded(line: Seq<u8>, word: &str) -> bool {
    word_at(line, lit(word), 0)
}

/// The word stands somewhere in the line, up to ASCII case.
pub open spec fn mentions(line: Seq<u8>, word: &str) -> bool {
    exists|at: int| #[trigger] word_at(line, lit(word), at)
}

/// The word stands somewhere in the line, letter for letter.
pub open spec fn mentions_exactly(line: Seq<u8>, word: &str) -> bool {
    exists|at: int| #[trigger] exact_word_at(line, lit(word), at)
}

/// The word stands in the line behind something visible, up to ASCII case.
pub open spec fn mentions_inside(line: Seq<u8>, word: &str) -> bool {
    exists|at: int| #[trigger] word_at(line, lit(word), at) && !is_indented(line, at)
}

/// The word stands in the line behind something visible, letter for letter.
pub open spec fn mentions_exactly_inside(line: Seq<u8>, word: &str) -> bool {
    exists|at: int| #[trigger] exact_word_at(line, lit(word), at) && !is_indented(line, at)
}

/// The line ends with the word, but for its line ending, behind its indentation.
pub open spec fn ends(line: Seq<u8>, word: &str) -> bool {
    exists|at: int|
        {
            &&& #[trigger] exact_word_at(line, lit(word), at)
            &&& forall|i: int|
                at + lit(word).len() <= i < line.len() ==> #[trigger] line[i] == 10 || line[i] == 13
        }
}

/// The line holds nothing but spaces, tabs and its ending.
pub open spec fn is_empty_line(line: Seq<u8>) -> bool {
    forall|i: int|
        0 <= i < line.len() ==> #[trigger] line[i] == 32 || line[i] == 9 || line[i] == 10
            || line[i] == 13
}

/// The word is not empty, and has a visible first and last byte as far as it matters: it begins
/// with no blank and holds no line ending.
pub open spec fn is_word(word: Seq<u8>) -> bool {
    &&& word.len() > 0
    &&& word[0] != 32 && word[0] != 9
    &&& is_inner(word)
}

/// The word holds no line ending.
pub open spec fn is_inner(word: Seq<u8>) -> bool {
    &&& word.len() > 0
    &&& forall|i: int| 0 <= i < word.len() ==> #[trigger] word[i] != 10 && word[i] != 13
}

pub proof fn lemma_same_letter(left: u8, right: u8)
    ensures
        same_letter(left, right) <==> lower(left) == lower(right),
{
}

pub proof fn lemma_word_at(line: Seq<u8>, word: Seq<u8>, at: int)
    ensures
        word_at(line, word, at) <==> occurs_at(folded(line), folded(word), at),
        exact_word_at(line, word, at) <==> occurs_at(line, word, at),
{
    if occurs_at(folded(line), folded(word), at) {
        assert forall|i: int| 0 <= i < word.len() implies same_letter(
            #[trigger] line[at + i],
            word[i],
        ) by {
            assert(folded(line).subrange(at, at + word.len())[i] == folded(word)[i]);
        }
    }
    if word_at(line, word, at) {
        assert(folded(line).subrange(at, at + word.len()) =~= folded(word)) by {
            assert forall|i: int| 0 <= i < word.len() implies #[trigger] folded(line).subrange(
                at,
                at + word.len(),
            )[i] == folded(word)[i] by {
                assert(same_letter(line[at + i], word[i]));
            }
        }
    }
    if occurs_at(line, word, at) {
        assert forall|i: int| 0 <= i < word.len() implies #[trigger] line[at + i] == word[i] by {
            assert(line.subrange(at, at + word.len())[i] == word[i]);
        }
    }
    if exact_word_at(line, word, at) {
        assert(line.subrange(at, at + word.len()) =~= word) by {
            assert forall|i: int| 0 <= i < word.len() implies #[trigger] line.subrange(
                at,
                at + word.len(),
            )[i] == word[i] by {
                assert(line[at + i] == word[i]);
            }
        }
    }
}

/// The part of a line that remains without its ending.
proof fn lemma_body(line: Seq<u8>)
    ensures
        ({
            let body = without_line_ending(line);
            &&& body.len() <= line.len() <= body.len() + 2
            &&& body == line.take(body.len() as int)
            &&& forall|i: int|
                body.len() <= i < line.len() ==> #[trigger] line[i] == 10 || line[i] == 13
        }),
{
    let body = without_line_ending(line);
    assert(body =~= line.take(body.len() as int));
}

/// The part of a line that remains without its indentation.
proof fn lemma_indentation(value: Seq<u8>)
    ensures
        ({
            let rest = without_leading_blanks(value);
            let at = value.len() - rest.len();
            &&& 0 <= at
            &&& rest == value.skip(at)
            &&& is_indented(value, at)
            &&& rest.len() > 0 ==> rest[0] != 32 && rest[0] != 9
        }),
    decreases value.len(),
{
    if value.len() > 0 && (value[0] == 32 || value[0] == 9) {
        lemma_indentation(value.drop_first());
        let rest = without_leading_blanks(value);
        let at = value.len() - rest.len();
        assert(rest =~= value.skip(at));
        assert forall|i: int| 0 <= i < at implies #[trigger] value[i] == 32 || value[i] == 9 by {
            if i > 0 {
                assert(value.drop_first()[i - 1] == value[i]);
            }
        }
    } else {
        assert(value.skip(0) =~= value);
    }
}

/// Where the trimmed part of a line stands in it.
pub open spec fn trimmed_from(line: Seq<u8>) -> int {
    without_line_ending(line).len() - trimmed_body(line).len()
}

proof fn lemma_trimmed(line: Seq<u8>)
    ensures
        ({
            let trimmed = trimmed_body(line);
            let at = trimmed_from(line);
            &&& 0 <= at <= at + trimmed.len() <= line.len()
            &&& trimmed == line.subrange(at, at + trimmed.len())
            &&& is_indented(line, at)
            &&& trimmed.len() > 0 ==> trimmed[0] != 32 && trimmed[0] != 9
            &&& forall|i: int|
                at + trimmed.len() <= i < line.len() ==> #[trigger] line[i] == 10 || line[i] == 13
        }),
{
    let body = without_line_ending(line);
    lemma_body(line);
    lemma_indentation(body);
    let at = trimmed_from(line);
    assert(trimmed_body(line) =~= line.subrange(at, at + trimmed_body(line).len()));
    assert forall|i: int| 0 <= i < at implies #[trigger] line[i] == 32 || line[i] == 9 by {
        assert(body[i] == line[i]);
    }
}

/// A line opens with a word if and only if its trimmed part has it as a prefix.
pub proof fn lemma_opens(line: Seq<u8>, word: &str)
    requires
        is_word(lit(word)),
    ensures
        opens(line, word) <==> has_prefix_folded(trimmed_body(line), lit(word)),
        opens_exactly(line, word) <==> has_prefix(trimmed_body(line), lit(word)),
{
    let trimmed = trimmed_body(line);
    let from = trimmed_from(line);
    let needle = lit(word);
    lemma_trimmed(line);
    lemma_word_at(trimmed, needle, 0);
    if word_at(trimmed, needle, 0) {
        assert(word_at(line, needle, from)) by {
            assert forall|i: int| 0 <= i < needle.len() implies same_letter(
                #[trigger] line[from + i],
                needle[i],
            ) by {
                assert(trimmed[0 + i] == line[from + i]);
            }
        }
    }
    if exact_word_at(trimmed, needle, 0) {
        assert(exact_word_at(line, needle, from)) by {
            assert forall|i: int| 0 <= i < needle.len() implies #[trigger] line[from + i]
                == needle[i] by {
                assert(trimmed[0 + i] == line[from + i]);
            }
        }
    }
    if opens(line, word) {
        let at = choose|at: int| #[trigger] word_at(line, needle, at) && is_indented(line, at);
        lemma_word_is_trimmed(line, needle, at);
        assert forall|i: int| 0 <= i < needle.len() implies same_letter(
            #[trigger] trimmed[0 + i],
            needle[i],
        ) by {
            assert(same_letter(line[from + i], needle[i]));
        }
    }
    if opens_exactly(line, word) {
        let at = choose|at: int|
            #[trigger] exact_word_at(line, needle, at) && is_indented(line, at);
        assert(word_at(line, needle, at)) by {
            assert forall|i: int| 0 <= i < needle.len() implies same_letter(
                #[trigger] line[at + i],
                needle[i],
            ) by {}
        }
        lemma_word_is_trimmed(line, needle, at);
        assert forall|i: int| 0 <= i < needle.len() implies #[trigger] trimmed[0 + i]
            == needle[i] by {
            assert(line[from + i] == needle[i]);
        }
    }
}

proof fn lemma_word_is_trimmed(line: Seq<u8>, needle: Seq<u8>, at: int)
    requires
        is_word(needle),
        word_at(line, needle, at),
        is_indented(line, at),
    ensures
        at == trimmed_from(line),
        needle.len() <= trimmed_body(line).len(),
{
    let trimmed = trimmed_body(line);
    let from = trimmed_from(line);
    lemma_trimmed(line);
    assert(same_letter(line[at + 0], needle[0]));
    let last = needle.len() - 1;
    assert(same_letter(line[at + last], needle[last]));
    if at < from {
        assert(line[at] == 32 || line[at] == 9);
    }
    if at + last >= from + trimmed.len() {
        assert(line[at + last] == 10 || line[at + last] == 13);
    }
    if from < at {
        assert(trimmed[0] == line[from]);
    }
}

/// A word that stands in a part of a line stands in the line.
proof fn lemma_mentioned_in_part(line: Seq<u8>, from: int, to: int, word: &str)
    requires
        0 <= from <= to <= line.len(),
    ensures
        has_infix_folded(line.subrange(from, to), lit(word)) ==> mentions(line, word),
        has_infix(line.subrange(from, to), lit(word)) ==> mentions_exactly(line, word),
{
    let part = line.subrange(from, to);
    let needle = lit(word);
    if has_infix_folded(part, needle) {
        let at = choose|at: int| #[trigger] occurs_at(folded(part), folded(needle), at);
        lemma_word_at(part, needle, at);
        assert(word_at(line, needle, from + at)) by {
            assert forall|i: int| 0 <= i < needle.len() implies same_letter(
                #[trigger] line[from + at + i],
                needle[i],
            ) by {
                assert(part[at + i] == line[from + at + i]);
            }
        }
    }
    if has_infix(part, needle) {
        let at = choose|at: int| #[trigger] occurs_at(part, needle, at);
        lemma_word_at(part, needle, at);
        assert(exact_word_at(line, needle, from + at)) by {
            assert forall|i: int| 0 <= i < needle.len() implies #[trigger] line[from + at + i]
                == needle[i] by {
                assert(part[at + i] == line[from + at + i]);
            }
        }
    }
}

/// A word without a leading blank or a line ending is in a line if and only if it is in the trimmed
/// part of it; one with a leading blank is in the line where it is in that part.
pub proof fn lemma_mentions(line: Seq<u8>, word: &str)
    requires
        is_inner(lit(word)),
    ensures
        has_infix_folded(trimmed_body(line), lit(word)) ==> mentions(line, word),
        has_infix(trimmed_body(line), lit(word)) ==> mentions_exactly(line, word),
        is_word(lit(word)) && mentions(line, word) ==> has_infix_folded(
            trimmed_body(line),
            lit(word),
        ),
        is_word(lit(word)) && mentions_exactly(line, word) ==> has_infix(
            trimmed_body(line),
            lit(word),
        ),
{
    let trimmed = trimmed_body(line);
    let from = trimmed_from(line);
    let needle = lit(word);
    let last = needle.len() - 1;
    lemma_trimmed(line);
    lemma_mentioned_in_part(line, from, from + trimmed.len(), word);
    if is_word(needle) && mentions(line, word) {
        let at = choose|at: int| #[trigger] word_at(line, needle, at);
        assert(same_letter(line[at + 0], needle[0]));
        assert(same_letter(line[at + last], needle[last]));
        if at < from {
            assert(line[at] == 32 || line[at] == 9);
        }
        if at + last >= from + trimmed.len() {
            assert(line[at + last] == 10 || line[at + last] == 13);
        }
        assert forall|i: int| 0 <= i < needle.len() implies same_letter(
            #[trigger] trimmed[at - from + i],
            needle[i],
        ) by {
            assert(same_letter(line[at + i], needle[i]));
        }
        lemma_word_at(trimmed, needle, at - from);
    }
    if is_word(needle) && mentions_exactly(line, word) {
        let at = choose|at: int| #[trigger] exact_word_at(line, needle, at);
        assert(line[at + 0] == needle[0]);
        assert(line[at + last] == needle[last]);
        if at < from {
            assert(line[at] == 32 || line[at] == 9);
        }
        if at + last >= from + trimmed.len() {
            assert(line[at + last] == 10 || line[at + last] == 13);
        }
        assert forall|i: int| 0 <= i < needle.len() implies #[trigger] trimmed[at - from + i]
            == needle[i] by {
            assert(line[at + i] == needle[i]);
        }
        lemma_word_at(trimmed, needle, at - from);
    }
}

/// What holds of a line without its ending, where blanks at its start count.
pub proof fn lemma_body_wording(line: Seq<u8>, word: &str)
    requires
        is_inner(lit(word)),
    ensures
        starts(line, word) <==> has_prefix(without_line_ending(line), lit(word)),
        starts_folded(line, word) <==> has_prefix_folded(without_line_ending(line), lit(word)),
        mentions(line, word) <==> has_infix_folded(without_line_ending(line), lit(word)),
        mentions_exactly(line, word) <==> has_infix(without_line_ending(line), lit(word)),
{
    let body = without_line_ending(line);
    let needle = lit(word);
    let last = needle.len() - 1;
    lemma_body(line);
    assert(body =~= line.subrange(0, body.len() as int));
    lemma_mentioned_in_part(line, 0, body.len() as int, word);
    lemma_word_at(body, needle, 0);
    lemma_word_at(line, needle, 0);
    if has_prefix(body, needle) {
        assert forall|i: int| 0 <= i < needle.len() implies #[trigger] line[0 + i] == needle[i] by {
            assert(body[0 + i] == needle[i]);
        }
    }
    if has_prefix_folded(body, needle) {
        assert forall|i: int| 0 <= i < needle.len() implies same_letter(
            #[trigger] line[0 + i],
            needle[i],
        ) by {
            assert(same_letter(body[0 + i], needle[i]));
        }
    }
    if mentions(line, word) {
        let at = choose|at: int| #[trigger] word_at(line, needle, at);
        lemma_word_in_body(line, needle, at);
    }
    if mentions_exactly(line, word) {
        let at = choose|at: int| #[trigger] exact_word_at(line, needle, at);
        lemma_exact_word_in_body(line, needle, at);
    }
    if starts(line, word) {
        lemma_exact_word_in_body(line, needle, 0);
    }
    if starts_folded(line, word) {
        lemma_word_in_body(line, needle, 0);
    }
}

proof fn lemma_word_in_body(line: Seq<u8>, needle: Seq<u8>, at: int)
    requires
        is_inner(needle),
        word_at(line, needle, at),
    ensures
        occurs_at(folded(without_line_ending(line)), folded(needle), at),
{
    let body = without_line_ending(line);
    let last = needle.len() - 1;
    lemma_body(line);
    assert(same_letter(line[at + last], needle[last]));
    if at + last >= body.len() {
        assert(line[at + last] == 10 || line[at + last] == 13);
    }
    assert forall|i: int| 0 <= i < needle.len() implies same_letter(
        #[trigger] body[at + i],
        needle[i],
    ) by {
        assert(same_letter(line[at + i], needle[i]));
    }
    lemma_word_at(body, needle, at);
}

proof fn lemma_exact_word_in_body(line: Seq<u8>, needle: Seq<u8>, at: int)
    requires
        is_inner(needle),
        exact_word_at(line, needle, at),
    ensures
        occurs_at(without_line_ending(line), needle, at),
{
    let body = without_line_ending(line);
    let last = needle.len() - 1;
    lemma_body(line);
    assert(line[at + last] == needle[last]);
    if at + last >= body.len() {
        assert(line[at + last] == 10 || line[at + last] == 13);
    }
    assert forall|i: int| 0 <= i < needle.len() implies #[trigger] body[at + i] == needle[i] by {
        assert(line[at + i] == needle[i]);
    }
    lemma_word_at(body, needle, at);
}

/// Nothing remains of a line without its ending and indentation only if it is empty.
pub proof fn lemma_empty(line: Seq<u8>)
    ensures
        trimmed_body(line).len() == 0 ==> is_empty_line(line),
        without_line_ending(line).len() == 0 ==> is_empty_line(line),
{
    lemma_trimmed(line);
    lemma_body(line);
    if trimmed_body(line).len() == 0 {
        assert forall|i: int| 0 <= i < line.len() implies #[trigger] line[i] == 32 || line[i] == 9
            || line[i] == 10 || line[i] == 13 by {}
    }
}

/// A line that begins with a word has its letters.
pub proof fn lemma_letters(value: Seq<u8>, word: &str)
    requires
        vstd::utf8::is_ascii_chars(word@),
    ensures
        lit(word).len() == word@.len(),
        forall|i: int| 0 <= i < word@.len() ==> #[trigger] lit(word)[i] == word@[i] as u8,
        has_prefix_folded(value, lit(word)) ==> value.len() >= word@.len() && forall|i: int|
            0 <= i < word@.len() ==> lower(#[trigger] value[i]) == lower(word@[i] as u8),
        has_prefix(value, lit(word)) ==> has_prefix_folded(value, lit(word)),
{
    vstd::utf8::is_ascii_chars_encode_utf8(word@);
    lemma_word_at(value, lit(word), 0);
    if has_prefix_folded(value, lit(word)) {
        assert forall|i: int| 0 <= i < word@.len() implies lower(#[trigger] value[i]) == lower(
            word@[i] as u8,
        ) by {
            assert(same_letter(value[0 + i], lit(word)[i]));
        }
    }
    if has_prefix(value, lit(word)) {
        assert(word_at(value, lit(word), 0)) by {
            assert forall|i: int| 0 <= i < lit(word).len() implies same_letter(
                #[trigger] value[0 + i],
                lit(word)[i],
            ) by {}
        }
    }
}

/// A word with a leading blank is in the trimmed part of a line if and only if it is in the line
/// behind something visible.
pub proof fn lemma_mentions_inside(line: Seq<u8>, word: &str)
    requires
        is_inner(lit(word)),
        lit(word)[0] == 32 || lit(word)[0] == 9,
    ensures
        has_infix_folded(trimmed_body(line), lit(word)) <==> mentions_inside(line, word),
        has_infix(trimmed_body(line), lit(word)) <==> mentions_exactly_inside(line, word),
{
    let trimmed = trimmed_body(line);
    let from = trimmed_from(line);
    let needle = lit(word);
    let last = needle.len() - 1;
    lemma_trimmed(line);
    if has_infix_folded(trimmed, needle) {
        let at = choose|at: int| #[trigger] occurs_at(folded(trimmed), folded(needle), at);
        lemma_word_at(trimmed, needle, at);
        assert(same_letter(trimmed[at + 0], needle[0]));
        assert(at > 0);
        assert(word_at(line, needle, from + at)) by {
            assert forall|i: int| 0 <= i < needle.len() implies same_letter(
                #[trigger] line[from + at + i],
                needle[i],
            ) by {
                assert(trimmed[at + i] == line[from + at + i]);
            }
        }
        assert(line[from] == trimmed[0]);
        assert(!is_indented(line, from + at));
    }
    if has_infix(trimmed, needle) {
        let at = choose|at: int| #[trigger] occurs_at(trimmed, needle, at);
        lemma_word_at(trimmed, needle, at);
        assert(trimmed[at + 0] == needle[0]);
        assert(at > 0);
        assert(exact_word_at(line, needle, from + at)) by {
            assert forall|i: int| 0 <= i < needle.len() implies #[trigger] line[from + at + i]
                == needle[i] by {
                assert(trimmed[at + i] == line[from + at + i]);
            }
        }
        assert(line[from] == trimmed[0]);
        assert(!is_indented(line, from + at));
    }
    if mentions_inside(line, word) {
        let at = choose|at: int| #[trigger] word_at(line, needle, at) && !is_indented(line, at);
        assert(same_letter(line[at + last], needle[last]));
        assert(at >= from) by {
            if at < from {
                assert(is_indented(line, at));
            }
        }
        if at + last >= from + trimmed.len() {
            assert(line[at + last] == 10 || line[at + last] == 13);
        }
        assert forall|i: int| 0 <= i < needle.len() implies same_letter(
            #[trigger] trimmed[at - from + i],
            needle[i],
        ) by {
            assert(same_letter(line[at + i], needle[i]));
        }
        lemma_word_at(trimmed, needle, at - from);
    }
    if mentions_exactly_inside(line, word) {
        let at = choose|at: int|
            #[trigger] exact_word_at(line, needle, at) && !is_indented(line, at);
        assert(line[at + last] == needle[last]);
        assert(at >= from) by {
            if at < from {
                assert(is_indented(line, at));
            }
        }
        if at + last >= from + trimmed.len() {
            assert(line[at + last] == 10 || line[at + last] == 13);
        }
        assert forall|i: int| 0 <= i < needle.len() implies #[trigger] trimmed[at - from + i]
            == needle[i] by {
            assert(line[at + i] == needle[i]);
        }
        lemma_word_at(trimmed, needle, at - from);
    }
}

/// What ends the trimmed part of a line ends the line.
pub proof fn lemma_ends(line: Seq<u8>, word: &str)
    requires
        is_inner(lit(word)),
    ensures
        has_suffix(trimmed_body(line), lit(word)) ==> ends(line, word),
{
    let trimmed = trimmed_body(line);
    let from = trimmed_from(line);
    let needle = lit(word);
    lemma_trimmed(line);
    if has_suffix(trimmed, needle) {
        let at = trimmed.len() - needle.len();
        lemma_word_at(trimmed, needle, at);
        assert(exact_word_at(line, needle, from + at)) by {
            assert forall|i: int| 0 <= i < needle.len() implies #[trigger] line[from + at + i]
                == needle[i] by {
                assert(trimmed[at + i] == needle[i]);
            }
        }
    }
}

/// The word is plain ASCII text on one line.
pub open spec fn is_plain(word: &str) -> bool {
    &&& word@.len() > 0
    &&& forall|i: int|
        0 <= i < word@.len() ==> '\0' <= #[trigger] word@[i] <= '\u{7f}' && word@[i] != '\n'
            && word@[i] != '\r'
}

/// What a plain word means for a line, and for its trimmed part.
pub proof fn lemma_plain(line: Seq<u8>, word: &str)
    requires
        is_plain(word),
    ensures
        is_inner(lit(word)),
        word@[0] != ' ' && word@[0] != '\t' ==> is_word(lit(word)),
        word@[0] != ' ' && word@[0] != '\t' ==> {
            &&& opens(line, word) <==> has_prefix_folded(trimmed_body(line), lit(word))
            &&& opens_exactly(line, word) <==> has_prefix(trimmed_body(line), lit(word))
            &&& mentions(line, word) <==> has_infix_folded(trimmed_body(line), lit(word))
            &&& mentions_exactly(line, word) <==> has_infix(trimmed_body(line), lit(word))
        },
        word@[0] == ' ' || word@[0] == '\t' ==> {
            &&& mentions_inside(line, word) <==> has_infix_folded(trimmed_body(line), lit(word))
            &&& mentions_exactly_inside(line, word) <==> has_infix(trimmed_body(line), lit(word))
            &&& !has_prefix(trimmed_body(line), lit(word))
        },
        has_suffix(trimmed_body(line), lit(word)) ==> ends(line, word),
        starts(line, word) <==> has_prefix(without_line_ending(line), lit(word)),
        starts_folded(line, word) <==> has_prefix_folded(without_line_ending(line), lit(word)),
        mentions(line, word) <==> has_infix_folded(without_line_ending(line), lit(word)),
        mentions_exactly(line, word) <==> has_infix(without_line_ending(line), lit(word)),
        lit(word).len() == word@.len(),
        has_prefix(trimmed_body(line), lit(word)) ==> has_prefix_folded(
            trimmed_body(line),
            lit(word),
        ),
        has_prefix_folded(trimmed_body(line), lit(word)) ==> trimmed_body(line).len()
            >= word@.len() && forall|i: int|
            0 <= i < word@.len() ==> lower(#[trigger] trimmed_body(line)[i]) == lower(
                word@[i] as u8,
            ),
        has_prefix(without_line_ending(line), lit(word)) ==> has_prefix_folded(
            without_line_ending(line),
            lit(word),
        ),
        has_prefix_folded(without_line_ending(line), lit(word)) ==> without_line_ending(line).len()
            >= word@.len() && forall|i: int|
            0 <= i < word@.len() ==> lower(#[trigger] without_line_ending(line)[i]) == lower(
                word@[i] as u8,
            ),
{
    let needle = lit(word);
    assert(vstd::utf8::is_ascii_chars(word@)) by {
        assert forall|i: int| 0 <= i < word@.len() implies '\0' <= #[trigger] word@[i]
            <= '\u{7f}' by {}
    }
    lemma_letters(trimmed_body(line), word);
    lemma_letters(without_line_ending(line), word);
    assert forall|i: int| 0 <= i < needle.len() implies #[trigger] needle[i] != 10 && needle[i]
        != 13 by {
        assert(needle[i] == word@[i] as u8);
        assert(word@[i] != '\n');
    }
    assert(needle[0] == word@[0] as u8);
    lemma_body_wording(line, word);
    lemma_ends(line, word);
    if word@[0] != ' ' && word@[0] != '\t' {
        lemma_opens(line, word);
        lemma_mentions(line, word);
    } else {
        lemma_mentions_inside(line, word);
        lemma_trimmed(line);
        lemma_word_at(trimmed_body(line), needle, 0);
        if has_prefix(trimmed_body(line), needle) {
            let zero: int = 0;
            assert(trimmed_body(line)[zero + 0] == needle[0]);
        }
    }
}

} // verus!
