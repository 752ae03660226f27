//! What holds of requests, and of the notes around what is shown.
use vstd::prelude::*;
use vstd::utf8::encode_utf8;

use super::arguments::{SearchArguments, count_in, search_options};
use super::lines::display_text;
use super::matcher::escaped;
use super::reading::{ReadRange, colon_position, range_of, read_request};
use super::results::{SourceSearchModel, context_end, context_start, hint_text};
use crate::archive::model::SourceName;
use crate::bytes::{decimal, lit};
use crate::text::{is_canonical_number, number};

verus! {

/// A character that stands for itself in no pattern.
pub open spec fn has_meaning(c: char) -> bool {
    ||| c == '.' || c == '*' || c == '+' || c == '?' || c == '(' || c == ')' || c == '[' || c == ']'
    ||| c == '{' || c == '}' || c == '|' || c == '^' || c == '$' || c == '\\'
}

/// A text that is looked for as it is has a backslash in front of each character with a meaning;
/// letters, digits and spaces stay as they are.
pub proof fn lemma_fixed_text_is_escaped(text: Seq<char>, c: char)
    ensures
        escaped(Seq::empty()).len() == 0,
        has_meaning(c) ==> escaped(text.push(c)) == escaped(text) + seq!['\\', c],
        'a' <= c <= 'z' || 'A' <= c <= 'Z' || '0' <= c <= '9' || c == ' ' || c == '_' || c == '/'
            || c == ':' || c == '=' || c == '"' || c == '\'' ==> escaped(text.push(c)) == escaped(
            text,
        ) + seq![c],
{
    assert(text.push(c).drop_last() =~= text);
    assert(text.push(c).last() == c);
    assert(escaped(text).push('\\').push(c) =~= escaped(text) + seq!['\\', c]);
    assert(escaped(text).push(c) =~= escaped(text) + seq![c]);
}

proof fn lemma_first_colon(value: Seq<char>, from: int)
    requires
        0 <= from,
    ensures
        match colon_position(value, from) {
            Some(at) => from <= at < value.len() && value[at] == ':' && forall|i: int|
                from <= i < at ==> #[trigger] value[i] != ':',
            None => forall|i: int| from <= i < value.len() ==> #[trigger] value[i] != ':',
        },
    decreases value.len() - from,
{
    if from < value.len() && value[from] != ':' {
        lemma_first_colon(value, from + 1);
    }
}

/// A range is two numbers around its first colon, the second not smaller than the first.
pub proof fn lemma_ranges_are_two_numbers(value: Seq<char>, minimum: u64)
    ensures
        range_of(value, minimum) matches Ok((start, end)) ==> {
            &&& minimum <= start <= end
            &&& exists|at: int| #[trigger] is_range_at(value, at, start, end)
        },
{
    lemma_first_colon(value, 0);
    if let Ok((start, end)) = range_of(value, minimum) {
        let at = colon_position(value, 0)->Some_0;
        assert(value.subrange(0, at) =~= value.take(at));
        assert(value.subrange(at + 1, value.len() as int) =~= value.skip(at + 1));
        assert(is_range_at(value, at, start, end));
    }
}

/// A colon stands at a place, with one number before it and one behind it.
pub open spec fn is_range_at(value: Seq<char>, at: int, start: u64, end: u64) -> bool {
    &&& 0 <= at < value.len()
    &&& value[at] == ':'
    &&& is_canonical_number(value.take(at)) && number(value.take(at)) == start
    &&& is_canonical_number(value.skip(at + 1)) && number(value.skip(at + 1)) == end
}

/// Lines are counted from one and bytes from zero. Only a read of bytes needs the word `--bytes`.
pub proof fn lemma_requests_for_reads(arguments: Seq<Seq<char>>)
    ensures
        read_request(arguments) matches Ok(request) ==> {
            &&& 2 <= arguments.len() <= 4
            &&& request.archive_ref == arguments[0]
            &&& arguments.len() == 2 ==> request.source is None
            &&& arguments.len() > 2 ==> request.source == Some(arguments[1])
            &&& match request.range {
                ReadRange::Lines { start, end } => arguments.len() <= 3 && 1 <= start <= end,
                ReadRange::Bytes { start, end } => arguments.len() == 4 && arguments[2]
                    == "--bytes"@ && start <= end,
            }
        },
{
}

/// A search is for 1 to 8 patterns of 1 to 1024 bytes each, in one archived call.
pub proof fn lemma_patterns_of_searches(arguments: Seq<Seq<char>>)
    ensures
        search_options(arguments) matches Ok(options) ==> {
            &&& 1 <= options.patterns.len() <= 8
            &&& forall|i: int|
                0 <= i < options.patterns.len() ==> 1 <= encode_utf8(
                    #[trigger] options.patterns[i],
                ).len() <= 1_024
        },
{
    if let Ok(read) = SearchArguments::fresh().with_arguments(arguments, 0) {
        if let Ok(options) = read.options() {
            assert forall|i: int| 0 <= i < options.patterns.len() implies 1 <= encode_utf8(
                #[trigger] options.patterns[i],
            ).len() <= 1_024 by {
                assert(super::arguments::is_pattern_size(options.patterns[i]));
            }
        }
    }
}

/// A count is a plain number within its bounds.
pub proof fn lemma_counts_are_within_bounds(value: Seq<char>, minimum: nat, maximum: nat)
    ensures
        count_in(value, minimum, maximum) is Ok <==> {
            &&& is_canonical_number(value)
            &&& minimum <= number(value) <= maximum
            &&& number(value) <= usize::MAX
        },
        count_in(value, minimum, maximum) matches Ok(count) ==> count == number(value),
{
}

/// Around a selected line as many lines are shown as were asked for, as far as there are any.
pub proof fn lemma_context_of_a_line(selected: u64, before: nat, after: nat, total: u64)
    requires
        1 <= selected <= total,
    ensures
        1 <= context_start(selected, before) <= selected <= context_end(selected, after, total)
            <= total,
        selected - context_start(selected, before) <= before,
        context_start(selected, before) == 1 || selected - context_start(selected, before)
            == before,
        context_end(selected, after, total) - selected <= after,
        context_end(selected, after, total) == total || context_end(selected, after, total)
            - selected == after,
{
}

/// A shown range names the command that reads it exactly, from its first to its last line.
pub proof fn lemma_shown_ranges_can_be_read(
    archive_ref: Seq<char>,
    name: SourceName,
    first: u64,
    last: u64,
)
    ensures
        hint_text(archive_ref, name, (first, last)) == lit("Read exact context: yarp read ")
            + encode_utf8(archive_ref) + lit(" ") + encode_utf8(
            match name {
                SourceName::Stdout => "stdout"@,
                SourceName::Stderr => "stderr"@,
                SourceName::SourceOutput => "source_output"@,
                SourceName::ResultText => "result_text"@,
            },
        ) + lit(" ") + decimal(first as nat) + lit(":") + decimal(last as nat) + lit("\n"),
{
}

/// Selected lines that are not shown are counted; where all are shown, nothing is said.
pub proof fn lemma_selected_lines_left_out_are_counted(search: SourceSearchModel, left_out: nat)
    requires
        search.total_selected == search.displayed_selected.len() + left_out,
    ensures
        left_out == 0 ==> search.omission().len() == 0,
        left_out > 0 ==> search.omission() == lit("[yarp search: ") + decimal(left_out) + lit(
            " selected line(s) omitted]\n",
        ),
{
}

/// A line of up to 4096 bytes is shown whole; a longer one is cut and ends in three dots.
pub proof fn lemma_long_lines_are_cut(text: Seq<char>)
    ensures
        encode_utf8(text).len() <= 4_096 ==> display_text(text) == text,
        encode_utf8(text).len() > 4_096 ==> ({
            let shown = display_text(text);
            &&& shown.len() >= 3
            &&& shown.skip(shown.len() - 3) == "..."@
            &&& exists|count: int|
                0 <= count <= text.len() && shown.take(shown.len() - 3) == #[trigger] text.take(
                    count,
                )
        }),
{
    reveal_strlit("...");
    if encode_utf8(text).len() > 4_096 {
        let count = super::lines::fitting_characters(text, 4_093, 0);
        lemma_fitting(text, 4_093, 0);
        let shown = display_text(text);
        assert(shown.skip(shown.len() - 3) =~= "..."@);
        assert(shown.take(shown.len() - 3) =~= text.take(count));
    }
}

proof fn lemma_fitting(text: Seq<char>, limit: nat, from: int)
    requires
        0 <= from <= text.len(),
    ensures
        from <= super::lines::fitting_characters(text, limit, from) <= text.len(),
    decreases text.len() - from,
{
    if from < text.len() && encode_utf8(text.take(from + 1)).len() <= limit {
        lemma_fitting(text, limit, from + 1);
    }
}

} // verus!
