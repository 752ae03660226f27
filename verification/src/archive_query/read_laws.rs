//! What holds of every read.
use vstd::prelude::*;

use super::lines::{is_open, joined, lemma_lines_make_up_the_source, source_lines};
use super::reading::{
    ReadModel, ReadRange, byte_range, chosen_source, lemma_joined_concat, line_range, read_request,
    read_result,
};
use crate::archive::model::{SourceName, VerifiedSource};

verus! {

/// How many line breaks some bytes hold.
pub open spec fn breaks(value: Seq<u8>) -> nat
    decreases value.len(),
{
    if value.len() == 0 {
        0
    } else {
        breaks(value.drop_last()) + if value.last() == 10 {
            1nat
        } else {
            0nat
        }
    }
}

/// How many lines some bytes make: one for each line break, and one for what follows the last.
pub open spec fn line_total(value: Seq<u8>) -> nat {
    breaks(value) + if value.len() > 0 && value.last() != 10 {
        1nat
    } else {
        0nat
    }
}

/// `part` is what stands in `whole` after the line break in front of the line `start`, up to and
/// with the line break that ends the line `end`, or up to the end of `whole`.
pub open spec fn are_lines_at(whole: Seq<u8>, part: Seq<u8>, start: int, end: int, from: int) -> bool {
    &&& 0 <= from
    &&& from + part.len() <= whole.len()
    &&& part == whole.subrange(from, from + part.len())
    &&& breaks(whole.take(from)) == start - 1
    &&& from == 0 || whole[from - 1] == 10
    &&& part.len() > 0
    &&& line_total(part) == end - start + 1
    &&& part.last() == 10 || from + part.len() == whole.len()
}

proof fn lemma_breaks_concat(first: Seq<u8>, second: Seq<u8>)
    ensures
        breaks(first + second) == breaks(first) + breaks(second),
    decreases second.len(),
{
    if second.len() == 0 {
        assert(first + second =~= first);
    } else {
        lemma_breaks_concat(first, second.drop_last());
        assert((first + second).drop_last() =~= first + second.drop_last());
        assert((first + second).last() == second.last());
    }
}

spec fn is_closed(line: Seq<u8>) -> bool {
    line.len() > 0 && line.last() == 10 && breaks(line) == 1
}

proof fn lemma_lines_end(source: Seq<u8>)
    ensures
        ({
            let lines = source_lines(source);
            &&& forall|i: int| 0 <= i < lines.len() - 1 ==> is_closed(#[trigger] lines[i])
            &&& lines.len() == line_total(source)
            &&& lines.len() > 0 ==> source.len() > 0 && lines.last().len() > 0
                && lines.last().last() == source.last() && breaks(lines.last()) == if source.last()
                == 10 {
                1nat
            } else {
                0nat
            }
            &&& source.len() > 0 ==> lines.len() > 0
        }),
    decreases source.len(),
{
    if source.len() > 0 {
        let rest = source_lines(source.drop_last());
        let lines = source_lines(source);
        lemma_lines_end(source.drop_last());
        if rest.len() > 0 && is_open(rest.last()) {
            let last = rest.last().push(source.last());
            assert(last.drop_last() =~= rest.last());
            assert(lines.last() == last);
            assert forall|i: int| 0 <= i < lines.len() - 1 implies is_closed(
                #[trigger] lines[i],
            ) by {
                assert(lines[i] == rest[i]);
            }
        } else {
            let last = seq![source.last()];
            assert(last.drop_last() =~= Seq::empty());
            assert(breaks(last.drop_last()) == 0);
            assert(lines.last() == last);
            assert forall|i: int| 0 <= i < lines.len() - 1 implies is_closed(
                #[trigger] lines[i],
            ) by {
                assert(lines[i] == rest[i]);
                if i == rest.len() - 1 {
                    assert(rest[i] == rest.last());
                }
            }
        }
    }
}

proof fn lemma_joined_breaks(lines: Seq<Seq<u8>>)
    requires
        forall|i: int| 0 <= i < lines.len() ==> is_closed(#[trigger] lines[i]),
    ensures
        breaks(joined(lines)) == lines.len(),
        lines.len() > 0 ==> joined(lines).len() > 0 && joined(lines).last() == 10,
    decreases lines.len(),
{
    if lines.len() > 0 {
        let rest = lines.drop_last();
        assert forall|i: int| 0 <= i < rest.len() implies is_closed(#[trigger] rest[i]) by {
            assert(rest[i] == lines[i]);
        }
        assert(is_closed(lines[lines.len() - 1]));
        lemma_joined_breaks(rest);
        lemma_breaks_concat(joined(rest), lines.last());
        assert((joined(rest) + lines.last()).last() == lines.last().last());
    }
}

proof fn lemma_part(source: Seq<u8>, start: int, end: int)
    requires
        1 <= start <= end <= source_lines(source).len(),
    ensures
        are_lines_at(
            source,
            joined(source_lines(source).subrange(start - 1, end)),
            start,
            end,
            joined(source_lines(source).take(start - 1)).len() as int,
        ),
{
    let lines = source_lines(source);
    let before = lines.take(start - 1);
    let part = lines.subrange(start - 1, end);
    let rest = lines.skip(end);
    lemma_lines_end(source);
    lemma_lines_make_up_the_source(source);
    assert(lines =~= before + part + rest);
    lemma_joined_concat(before + part, rest);
    lemma_joined_concat(before, part);
    let from = joined(before).len() as int;
    assert(source.take(from) =~= joined(before));
    assert(source.subrange(from, from + joined(part).len()) =~= joined(part));
    assert forall|i: int| 0 <= i < before.len() implies is_closed(#[trigger] before[i]) by {
        assert(before[i] == lines[i]);
    }
    lemma_joined_breaks(before);
    if from > 0 {
        assert(source[from - 1] == joined(before).last());
    }
    let whole = part.drop_last();
    assert forall|i: int| 0 <= i < whole.len() implies is_closed(#[trigger] whole[i]) by {
        assert(whole[i] == lines[start - 1 + i]);
    }
    lemma_joined_breaks(whole);
    lemma_breaks_concat(joined(whole), part.last());
    assert(part.last() == lines[end - 1]);
    assert((joined(whole) + part.last()).last() == part.last().last());
    if end < lines.len() {
        assert(is_closed(lines[end - 1]));
    } else {
        assert(rest =~= Seq::empty());
        assert(lines[end - 1] == lines.last());
    }
}

/// A read of lines gives the bytes of the source that stand between the line break in front of the
/// first of them and the end of the last. It succeeds for small sources that have all the lines,
/// and never for others.
pub proof fn lemma_read_gives_the_lines(source: VerifiedSource, start: u64, end: u64)
    requires
        1 <= start <= end,
    ensures
        line_range(source, start, end) matches Ok(part) ==> part.len() <= 32_768 && exists|from: int|
            #[trigger]
            are_lines_at(source.body@, part, start as int, end as int, from),
        end > line_total(source.body@) ==> line_range(source, start, end) is Err,
        end <= line_total(source.body@) && source.body@.len() <= 32_768 ==> line_range(
            source,
            start,
            end,
        ) is Ok,
{
    let lines = source_lines(source.body@);
    lemma_lines_end(source.body@);
    if end <= lines.len() {
        lemma_part(source.body@, start as int, end as int);
        let part = joined(lines.subrange(start - 1, end as int));
        let from = joined(lines.take(start - 1)).len() as int;
        assert(are_lines_at(source.body@, part, start as int, end as int, from));
        assert(super::reading::lines_between(lines, start, end) == part);
        if let Ok(read) = line_range(source, start, end) {
            assert(read == part);
        }
    }
}

proof fn lemma_breaks_monotone(source: Seq<u8>, small: int, large: int)
    requires
        0 <= small <= large <= source.len(),
    ensures
        breaks(source.take(small)) <= breaks(source.take(large)),
        small < large && source[large - 1] == 10 ==> breaks(source.take(small)) < breaks(
            source.take(large),
        ),
{
    assert(source.take(large) =~= source.take(small) + source.subrange(small, large));
    lemma_breaks_concat(source.take(small), source.subrange(small, large));
    if small < large && source[large - 1] == 10 {
        assert(source.subrange(small, large).last() == 10);
    }
}

/// No other bytes are those of the lines.
pub proof fn lemma_lines_are_unique(
    whole: Seq<u8>,
    first: Seq<u8>,
    second: Seq<u8>,
    start: int,
    end: int,
    from: int,
    other: int,
)
    requires
        are_lines_at(whole, first, start, end, from),
        are_lines_at(whole, second, start, end, other),
    ensures
        from == other,
        first == second,
{
    if from < other {
        lemma_breaks_monotone(whole, from, other);
    }
    if other < from {
        lemma_breaks_monotone(whole, other, from);
    }
    let to = from + first.len();
    let till = from + second.len();
    assert(whole.take(to) =~= whole.take(from) + first);
    assert(whole.take(till) =~= whole.take(from) + second);
    lemma_breaks_concat(whole.take(from), first);
    lemma_breaks_concat(whole.take(from), second);
    assert(whole[to - 1] == first.last());
    assert(whole[till - 1] == second.last());
    if to < till {
        lemma_breaks_monotone(whole, to, till);
    }
    if till < to {
        lemma_breaks_monotone(whole, till, to);
    }
}

/// Reading on from where a read ended gives what one read over both ranges gives.
pub proof fn lemma_reads_of_lines_join(source: VerifiedSource, start: u64, middle: u64, end: u64)
    requires
        1 <= start <= middle < end,
        line_range(source, start, end) is Ok,
    ensures
        line_range(source, start, middle) is Ok,
        line_range(source, (middle + 1) as u64, end) is Ok,
        line_range(source, start, end)->Ok_0 == line_range(source, start, middle)->Ok_0
            + line_range(source, (middle + 1) as u64, end)->Ok_0,
{
    let lines = source_lines(source.body@);
    let first = lines.subrange(start - 1, middle as int);
    let second = lines.subrange(middle as int, end as int);
    assert(lines.subrange(start - 1, end as int) =~= first + second);
    lemma_joined_concat(first, second);
}

/// A read of bytes gives as many bytes as the range has, and each is the byte of the source at its
/// offset. It succeeds if the source reaches to the end of the range and the range is small.
pub proof fn lemma_read_gives_the_bytes(source: VerifiedSource, start: u64, end: u64)
    requires
        start <= end,
    ensures
        byte_range(source, start, end) is Ok <==> end <= source.body@.len() && end - start
            <= 32_768,
        byte_range(source, start, end) matches Ok(part) ==> part.len() == end - start && forall|
            i: int,
        |
            0 <= i < part.len() ==> #[trigger] part[i] == source.body@[start + i],
{
}

/// The name by which a source is asked for.
pub open spec fn asked_as(name: SourceName) -> Seq<char> {
    match name {
        SourceName::Stdout => "stdout"@,
        SourceName::Stderr => "stderr"@,
        SourceName::SourceOutput => "source_output"@,
        SourceName::ResultText => "result_text"@,
    }
}

proof fn lemma_names_differ(left: SourceName, right: SourceName)
    requires
        asked_as(left) == right.text(),
    ensures
        left == right,
{
    reveal_strlit("stdout");
    reveal_strlit("stderr");
    reveal_strlit("source_output");
    reveal_strlit("result_text");
    assert("stdout"@.len() == 6 && "stderr"@.len() == 6);
    assert("source_output"@.len() == 13 && "result_text"@.len() == 11);
    assert("stdout"@[3] != "stderr"@[3]);
}

proof fn lemma_index_of_name(sources: Seq<VerifiedSource>, name: SourceName, from: int)
    requires
        0 <= from,
    ensures
        match super::reading::source_index(sources, asked_as(name), from) {
            Some(index) => from <= index < sources.len() && sources[index].name == name,
            None => forall|i: int|
                from <= i < sources.len() ==> (#[trigger] sources[i]).name != name,
        },
    decreases sources.len() - from,
{
    if from < sources.len() {
        if sources[from].name.text() == asked_as(name) {
            lemma_names_differ(name, sources[from].name);
        }
        lemma_index_of_name(sources, name, from + 1);
    }
}

/// The source that is asked for by its name is the one that is read, and no other: there is an
/// error if and only if the call has none of that name. Without a name, the only source is read.
pub proof fn lemma_named_source_is_read(sources: Seq<VerifiedSource>, name: SourceName)
    ensures
        match chosen_source(sources, Some(asked_as(name))) {
            Ok(index) => 0 <= index < sources.len() && sources[index].name == name,
            Err(_) => forall|i: int| 0 <= i < sources.len() ==> (#[trigger] sources[i]).name
                != name,
        },
        match chosen_source(sources, None) {
            Ok(index) => index == 0 && sources.len() == 1,
            Err(_) => sources.len() != 1,
        },
{
    lemma_index_of_name(sources, name, 0);
}

/// The arguments `REF SOURCE START:END` ask for lines, and with `--bytes` for bytes; a source need
/// not be named for lines.
pub proof fn lemma_read_arguments(
    archive_ref: Seq<char>,
    source: Seq<char>,
    start: u64,
    end: u64,
)
    requires
        start <= end,
    ensures
        ({
            let range = crate::text::digits(start as nat) + ":"@ + crate::text::digits(end as nat);
            &&& start >= 1 ==> read_request(seq![archive_ref, range]) == Ok::<
                ReadModel,
                Seq<char>,
            >(
                ReadModel {
                    archive_ref,
                    source: None,
                    range: ReadRange::Lines { start, end },
                },
            )
            &&& start >= 1 ==> read_request(seq![archive_ref, source, range]) == Ok::<
                ReadModel,
                Seq<char>,
            >(
                ReadModel {
                    archive_ref,
                    source: Some(source),
                    range: ReadRange::Lines { start, end },
                },
            )
            &&& read_request(seq![archive_ref, source, "--bytes"@, range]) == Ok::<
                ReadModel,
                Seq<char>,
            >(
                ReadModel {
                    archive_ref,
                    source: Some(source),
                    range: ReadRange::Bytes { start, end },
                },
            )
        }),
{
    super::reading::lemma_range_round_trip(start, end, 0);
    if start >= 1 {
        super::reading::lemma_range_round_trip(start, end, 1);
    }
}

/// A read of lines or bytes by the name of a source gives the bytes of that source.
pub proof fn lemma_read_is_of_the_named_source(
    sources: Seq<VerifiedSource>,
    archive_ref: Seq<char>,
    name: SourceName,
    start: u64,
    end: u64,
)
    requires
        1 <= start <= end,
    ensures
        read_result(
            ReadModel {
                archive_ref,
                source: Some(asked_as(name)),
                range: ReadRange::Lines { start, end },
            },
            sources,
        ) matches Ok(part) ==> exists|i: int, from: int|
            0 <= i < sources.len() && (#[trigger] sources[i]).name == name && #[trigger]
            are_lines_at(sources[i].body@, part, start as int, end as int, from),
        read_result(
            ReadModel {
                archive_ref,
                source: Some(asked_as(name)),
                range: ReadRange::Bytes { start, end },
            },
            sources,
        ) matches Ok(part) ==> exists|i: int|
            0 <= i < sources.len() && (#[trigger] sources[i]).name == name && end
                <= sources[i].body@.len() && part == sources[i].body@.subrange(
                start as int,
                end as int,
            ),
{
    lemma_named_source_is_read(sources, name);
    if let Ok(index) = chosen_source(sources, Some(asked_as(name))) {
        lemma_read_gives_the_lines(sources[index], start, end);
        lemma_read_gives_the_bytes(sources[index], start, end);
        if let Ok(part) = line_range(sources[index], start, end) {
            let from = choose|from: int| #[trigger]
                are_lines_at(sources[index].body@, part, start as int, end as int, from);
            assert(sources[index].name == name && are_lines_at(
                sources[index].body@,
                part,
                start as int,
                end as int,
                from,
            ));
        }
        if let Ok(part) = byte_range(sources[index], start, end) {
            assert(part =~= sources[index].body@.subrange(start as int, end as int));
            assert(sources[index].name == name);
        }
    }
}

} // verus!
