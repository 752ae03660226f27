//! Exact ranges of archived sources.
use vstd::prelude::*;

use super::lines::{joined, source_lines};
use super::results::{bytes_result, MAX_QUERY_OUTPUT_BYTES};
use crate::archive::model::VerifiedSource;
use crate::bytes::copy;
use crate::text::{
    canonical_number, decimal, digits, is_canonical_number, join2, join3, join4, join5, number,
    parse_number, quoted, same_text, texts,
};

verus! {

/// Which part of a source is read.
#[derive(Clone, Copy, Debug, PartialEq, Eq, Structural)]
pub enum ReadRange {
    Lines { start: u64, end: u64 },
    Bytes { start: u64, end: u64 },
}

/// What a read asks for.
#[derive(Clone, Debug)]
pub struct ReadRequest {
    pub archive_ref: String,
    pub source: Option<String>,
    pub range: ReadRange,
}

/// The contents of a [`ReadRequest`].
#[verifier::ext_equal]
pub struct ReadModel {
    pub archive_ref: Seq<char>,
    pub source: Option<Seq<char>>,
    pub range: ReadRange,
}

impl View for ReadRequest {
    type V = ReadModel;

    open spec fn view(&self) -> ReadModel {
        ReadModel {
            archive_ref: self.archive_ref@,
            source: match self.source {
                Some(name) => Some(name@),
                None => None,
            },
            range: self.range,
        }
    }
}

/// Read a number without a needless leading zero.
pub open spec fn unsigned(value: Seq<char>) -> Result<u64, Seq<char>> {
    if !is_canonical_number(value) {
        Err("invalid canonical unsigned integer "@ + crate::text::debug_form(value))
    } else if number(value) > u64::MAX {
        Err("integer "@ + crate::text::debug_form(value) + " is outside the supported range"@)
    } else {
        Ok(number(value) as u64)
    }
}

/// The position of the first colon from `from` on.
pub open spec fn colon_position(value: Seq<char>, from: int) -> Option<int>
    decreases value.len() - from,
{
    if from < 0 || from >= value.len() {
        None
    } else if value[from] == ':' {
        Some(from)
    } else {
        colon_position(value, from + 1)
    }
}

/// Read a range in `START:END` form.
pub open spec fn range_of(value: Seq<char>, minimum_start: u64) -> Result<(u64, u64), Seq<char>> {
    match colon_position(value, 0) {
        None => Err("range must have START:END form"@),
        Some(at) => match unsigned(value.subrange(0, at)) {
            Err(fault) => Err(fault),
            Ok(start) => match unsigned(value.subrange(at + 1, value.len() as int)) {
                Err(fault) => Err(fault),
                Ok(end) => if start < minimum_start || end < start {
                    Err("range start and end are invalid"@)
                } else {
                    Ok((start, end))
                },
            },
        },
    }
}

/// The request that the arguments of a read make.
pub open spec fn read_request(arguments: Seq<Seq<char>>) -> Result<ReadModel, Seq<char>> {
    if arguments.len() == 2 {
        match range_of(arguments[1], 1) {
            Err(fault) => Err(fault),
            Ok((start, end)) => Ok(
                ReadModel {
                    archive_ref: arguments[0],
                    source: None,
                    range: ReadRange::Lines { start, end },
                },
            ),
        }
    } else if arguments.len() == 3 {
        match range_of(arguments[2], 1) {
            Err(fault) => Err(fault),
            Ok((start, end)) => Ok(
                ReadModel {
                    archive_ref: arguments[0],
                    source: Some(arguments[1]),
                    range: ReadRange::Lines { start, end },
                },
            ),
        }
    } else if arguments.len() == 4 && arguments[2] == "--bytes"@ {
        match range_of(arguments[3], 0) {
            Err(fault) => Err(fault),
            Ok((start, end)) => Ok(
                ReadModel {
                    archive_ref: arguments[0],
                    source: Some(arguments[1]),
                    range: ReadRange::Bytes { start, end },
                },
            ),
        }
    } else {
        Err("invalid read arguments; expected: yarp read REF [SOURCE] START:END"@)
    }
}

/// A range that was written in its plain form is read back.
pub proof fn lemma_range_round_trip(start: u64, end: u64, minimum_start: u64)
    requires
        minimum_start <= start <= end,
    ensures
        range_of(digits(start as nat) + ":"@ + digits(end as nat), minimum_start) == Ok::<
            (u64, u64),
            Seq<char>,
        >((start, end)),
{
    reveal_strlit(":");
    let first = digits(start as nat);
    let second = digits(end as nat);
    let value = first + ":"@ + second;
    crate::text::lemma_digits_round_trip(start as nat);
    crate::text::lemma_digits_round_trip(end as nat);
    lemma_colon_after_digits(value, first.len() as int, 0);
    assert(value.subrange(0, first.len() as int) =~= first);
    assert(value.subrange((first.len() + 1) as int, value.len() as int) =~= second);
}

proof fn lemma_colon_after_digits(value: Seq<char>, at: int, from: int)
    requires
        0 <= from <= at < value.len(),
        value[at] == ':',
        forall|i: int| from <= i < at ==> crate::text::is_digit(#[trigger] value[i]),
    ensures
        colon_position(value, from) == Some(at),
    decreases at - from,
{
    if from < at {
        assert(crate::text::is_digit(value[from]));
        lemma_colon_after_digits(value, at, from + 1);
    }
}

fn parse_u64(value: &str) -> (result: Result<u64, String>)
    ensures
        crate::text::verdict(result) == unsigned(value@),
{
    if !canonical_number(value) {
        return Err(join2("invalid canonical unsigned integer ", quoted(value).as_str()));
    }
    match parse_number(value) {
        Some(parsed) => Ok(parsed),
        None => Err(join3("integer ", quoted(value).as_str(), " is outside the supported range")),
    }
}

fn find_colon(characters: &Vec<char>) -> (position: Option<usize>)
    ensures
        position is None <==> colon_position(characters@, 0) is None,
        position matches Some(at) ==> at < characters@.len() && colon_position(characters@, 0)
            == Some(at as int),
{
    let mut i: usize = 0;
    while i < characters.len()
        invariant
            i <= characters.len(),
            colon_position(characters@, 0) == colon_position(characters@, i as int),
        decreases characters.len() - i,
    {
        if characters[i] == ':' {
            return Some(i);
        }
        i += 1;
    }
    None
}

fn parse_range(value: &str, minimum_start: u64) -> (result: Result<(u64, u64), String>)
    ensures
        crate::text::verdict(result) == range_of(value@, minimum_start),
{
    let characters = crate::text::chars(value);
    let Some(at) = find_colon(&characters) else {
        return Err("range must have START:END form".to_owned());
    };
    let start = parse_u64(crate::text::slice(value, 0, at).as_str())?;
    let end = parse_u64(crate::text::slice(value, at + 1, characters.len()).as_str())?;
    if start < minimum_start || end < start {
        return Err("range start and end are invalid".to_owned());
    }
    Ok((start, end))
}

/// Read the arguments of a read.
///
/// # Errors
///
/// Returns an error for a wrong number of arguments and for an invalid range.
pub fn parse_read(arguments: &[String]) -> (result: Result<ReadRequest, String>)
    ensures
        match (result, read_request(texts(arguments@))) {
            (Ok(request), Ok(model)) => request@ == model,
            (Err(error), Err(fault)) => error@ == fault,
            _ => false,
        },
{
    let ghost words = texts(arguments@);
    proof {
        assert forall|i: int| 0 <= i < words.len() implies #[trigger] words[i]
            == arguments@[i]@ by {}
    }
    if arguments.len() == 2 {
        assert(words[1] == arguments@[1]@);
        let (start, end) = parse_range(arguments[1].as_str(), 1)?;
        return Ok(
            ReadRequest {
                archive_ref: arguments[0].clone(),
                source: None,
                range: ReadRange::Lines { start, end },
            },
        );
    }
    if arguments.len() == 3 {
        assert(words[2] == arguments@[2]@);
        let (start, end) = parse_range(arguments[2].as_str(), 1)?;
        return Ok(
            ReadRequest {
                archive_ref: arguments[0].clone(),
                source: Some(arguments[1].clone()),
                range: ReadRange::Lines { start, end },
            },
        );
    }
    if arguments.len() == 4 {
        assert(words[2] == arguments@[2]@);
        assert(words[3] == arguments@[3]@);
        if same_text(arguments[2].as_str(), "--bytes") {
            let (start, end) = parse_range(arguments[3].as_str(), 0)?;
            return Ok(
                ReadRequest {
                    archive_ref: arguments[0].clone(),
                    source: Some(arguments[1].clone()),
                    range: ReadRange::Bytes { start, end },
                },
            );
        }
    }
    Err("invalid read arguments; expected: yarp read REF [SOURCE] START:END".to_owned())
}

/// The names of the first `count` sources.
pub open spec fn source_names(sources: Seq<VerifiedSource>, count: nat) -> Seq<char>
    decreases count,
{
    if count == 0 {
        Seq::empty()
    } else if count == 1 {
        sources[0].name.text()
    } else {
        source_names(sources, (count - 1) as nat) + ", "@ + sources[count - 1].name.text()
    }
}

/// The position of the source with this name.
pub open spec fn source_index(sources: Seq<VerifiedSource>, name: Seq<char>, from: int) -> Option<int>
    decreases sources.len() - from,
{
    if from < 0 || from >= sources.len() {
        None
    } else if sources[from].name.text() == name {
        Some(from)
    } else {
        source_index(sources, name, from + 1)
    }
}

/// The source that is read: the requested one, or the only one.
pub open spec fn chosen_source(sources: Seq<VerifiedSource>, requested: Option<Seq<char>>) -> Result<
    int,
    Seq<char>,
> {
    match requested {
        Some(name) => match source_index(sources, name, 0) {
            Some(index) => Ok(index),
            None => Err(
                "source "@ + crate::text::debug_form(name) + " is unavailable; choose: "@
                    + source_names(sources, sources.len()),
            ),
        },
        None => if sources.len() == 1 {
            Ok(0)
        } else {
            Err("source is required; choose: "@ + source_names(sources, sources.len()))
        },
    }
}

fn join_names(sources: &Vec<VerifiedSource>) -> (names: String)
    ensures
        names@ == source_names(sources@, sources@.len()),
{
    let mut names = String::new();
    let mut i: usize = 0;
    assert(names@ =~= source_names(sources@, 0));
    while i < sources.len()
        invariant
            i <= sources.len(),
            names@ == source_names(sources@, i as nat),
        decreases sources.len() - i,
    {
        if i == 0 {
            names = sources[i].name.as_str().to_owned();
        } else {
            names.append(", ");
            names.append(sources[i].name.as_str());
        }
        i += 1;
    }
    names
}

/// Choose the source that is read.
///
/// # Errors
///
/// Returns an error when the requested source is not there, and when none is requested but
/// there is not exactly one.
pub fn choose_source(sources: &Vec<VerifiedSource>, requested: &Option<String>) -> (result: Result<
    usize,
    String,
>)
    ensures
        match (
            result,
            chosen_source(
                sources@,
                match *requested {
                    Some(name) => Some(name@),
                    None => None,
                },
            ),
        ) {
            (Ok(index), Ok(chosen)) => index == chosen && index < sources@.len(),
            (Err(error), Err(fault)) => error@ == fault,
            _ => false,
        },
{
    if let Some(name) = requested {
        let mut i: usize = 0;
        while i < sources.len()
            invariant
                i <= sources.len(),
                source_index(sources@, name@, 0) == source_index(sources@, name@, i as int),
                *requested == Some(*name),
            decreases sources.len() - i,
        {
            if same_text(sources[i].name.as_str(), name.as_str()) {
                return Ok(i);
            }
            i += 1;
        }
        return Err(
            join4(
                "source ",
                quoted(name.as_str()).as_str(),
                " is unavailable; choose: ",
                join_names(sources).as_str(),
            ),
        );
    }
    if sources.len() != 1 {
        return Err(join2("source is required; choose: ", join_names(sources).as_str()));
    }
    Ok(0)
}

/// The bytes of a source from `start` up to `end`.
pub open spec fn byte_range(source: VerifiedSource, start: u64, end: u64) -> Result<
    Seq<u8>,
    Seq<char>,
> {
    if end > source.body@.len() {
        Err(
            "byte range ends at "@ + digits(end as nat) + ", but "@ + source.name.text() + " has "@
                + digits(source.body@.len()) + " bytes"@,
        )
    } else if end - start > MAX_QUERY_OUTPUT_BYTES {
        Err(
            "exact read is "@ + digits((end - start) as nat)
                + " bytes; use a range no larger than 32768 bytes"@,
        )
    } else {
        Ok(source.body@.subrange(start as int, end as int))
    }
}

/// Read the bytes of a source from `start` up to `end`.
///
/// # Errors
///
/// Returns an error when the range leaves the source or is too large.
pub fn read_byte_range(source: &VerifiedSource, start: u64, end: u64) -> (result: Result<
    Vec<u8>,
    String,
>)
    requires
        start <= end,
    ensures
        bytes_result(result) == byte_range(*source, start, end),
{
    let length: u64 = source.body.len() as u64;
    if end > length {
        let mut message = join5(
            "byte range ends at ",
            decimal(end).as_str(),
            ", but ",
            source.name.as_str(),
            " has ",
        );
        message.append(decimal(length).as_str());
        message.append(" bytes");
        return Err(message);
    }
    if end - start > MAX_QUERY_OUTPUT_BYTES as u64 {
        return Err(
            join3(
                "exact read is ",
                decimal(end - start).as_str(),
                " bytes; use a range no larger than 32768 bytes",
            ),
        );
    }
    Ok(copy(&source.body.as_slice()[start as usize..end as usize]))
}

/// The lines of a source from `start` to `end`, as far as there are any.
pub open spec fn lines_between(lines: Seq<Seq<u8>>, start: u64, end: u64) -> Seq<u8> {
    let last = if end < lines.len() {
        end as int
    } else {
        lines.len() as int
    };
    if start - 1 < last {
        joined(lines.subrange(start - 1, last))
    } else {
        Seq::empty()
    }
}

/// The exact bytes of the lines from `start` to `end`.
pub open spec fn line_range(source: VerifiedSource, start: u64, end: u64) -> Result<
    Seq<u8>,
    Seq<char>,
> {
    let lines = source_lines(source.body@);
    let output = lines_between(lines, start, end);
    if output.len() > MAX_QUERY_OUTPUT_BYTES {
        Err(
            "exact line read exceeds 32768 bytes; use yarp read REF "@ + source.name.text()
                + " --bytes START:END"@,
        )
    } else if end > lines.len() {
        Err(
            "line range "@ + digits(start as nat) + ":"@ + digits(end as nat) + " exceeds "@
                + source.name.text() + " with "@ + digits(lines.len()) + " lines"@,
        )
    } else {
        Ok(output)
    }
}

/// Reading all lines of a small source gives the source back.
pub proof fn lemma_reading_every_line_gives_the_source(source: VerifiedSource)
    requires
        0 < source.body@.len() <= MAX_QUERY_OUTPUT_BYTES,
    ensures
        source_lines(source.body@).len() <= source.body@.len(),
        line_range(source, 1, source_lines(source.body@).len() as u64) == Ok::<
            Seq<u8>,
            Seq<char>,
        >(source.body@),
{
    let lines = source_lines(source.body@);
    lemma_line_count(source.body@);
    super::lines::lemma_lines_make_up_the_source(source.body@);
    assert(lines.subrange(0, lines.len() as int) =~= lines);
}

proof fn lemma_line_count(source: Seq<u8>)
    ensures
        source_lines(source).len() <= source.len(),
        source.len() > 0 ==> source_lines(source).len() > 0,
    decreases source.len(),
{
    if source.len() > 0 {
        lemma_line_count(source.drop_last());
    }
}

pub proof fn lemma_joined_concat(first: Seq<Seq<u8>>, second: Seq<Seq<u8>>)
    ensures
        joined(first + second) == joined(first) + joined(second),
    decreases second.len(),
{
    if second.len() == 0 {
        assert(first + second =~= first);
        assert(joined(first) + Seq::<u8>::empty() =~= joined(first));
    } else {
        lemma_joined_concat(first, second.drop_last());
        assert((first + second).drop_last() =~= first + second.drop_last());
        assert(joined(first) + (joined(second.drop_last()) + second.last()) =~= joined(first)
            + joined(second.drop_last()) + second.last());
    }
}

/// The first lines of a source make up its first bytes.
proof fn lemma_lines_up_to_break(source: Seq<u8>, begin: int)
    requires
        0 <= begin <= source.len(),
        begin == 0 || source[begin - 1] == 10,
    ensures
        source_lines(source.take(begin)).len() <= source_lines(source).len(),
        source_lines(source).take(source_lines(source.take(begin)).len() as int) == source_lines(
            source.take(begin),
        ),
        joined(source_lines(source).take(source_lines(source.take(begin)).len() as int))
            == source.take(begin),
{
    super::lines::lemma_lines_make_up_the_source(source.take(begin));
    if begin > 0 {
        super::lines::lemma_lines_prefix(source, begin);
    } else {
        assert(source.take(0) =~= Seq::empty());
        assert(source_lines(source).take(0) =~= Seq::empty());
    }
}

/// Lines between two line breaks are the bytes between them.
proof fn lemma_lines_between(
    source: Seq<u8>,
    lines: Seq<Seq<u8>>,
    from: int,
    to: int,
    first: int,
    last: int,
)
    requires
        0 <= from <= to <= source.len(),
        0 <= first <= last <= lines.len(),
        joined(lines.take(first)) == source.take(from),
        joined(lines.take(last)) == source.take(to),
    ensures
        joined(lines.subrange(first, last)) == source.subrange(from, to),
{
    lemma_joined_concat(lines.take(first), lines.subrange(first, last));
    assert(lines.take(first) + lines.subrange(first, last) =~= lines.take(last));
    let part = joined(lines.subrange(first, last));
    assert(source.take(to) == source.take(from) + part);
    assert(source.subrange(from, to) =~= source.take(to).subrange(from, to));
    assert((source.take(from) + part).subrange(from, to) =~= part);
}

/// Read the exact bytes of the lines from `start` to `end`.
///
/// # Errors
///
/// Returns an error when the range leaves the source or is too large.
pub fn read_line_range(source: &VerifiedSource, start: u64, end: u64) -> (result: Result<
    Vec<u8>,
    String,
>)
    requires
        1 <= start <= end,
    ensures
        bytes_result(result) == line_range(*source, start, end),
{
    let body: &[u8] = source.body.as_slice();
    let ghost lines = source_lines(body@);
    let mut closed: u64 = 0;
    let mut from: usize = 0;
    let mut begin: usize = 0;
    let mut i: usize = 0;
    assert(body@.take(0) =~= Seq::empty());
    assert(lines.take(0) =~= Seq::empty());
    while i < body.len() && closed < end
        invariant
            1 <= start <= end,
            begin <= i <= body.len(),
            closed <= begin,
            closed <= end,
            lines == source_lines(body@),
            begin == 0 || body@[begin - 1] == 10,
            forall|j: int| begin <= j < i ==> body@[j] != 10,
            closed == end ==> begin == i,
            source_lines(body@.take(begin as int)).len() == closed,
            from <= begin,
            closed >= start - 1 ==> start - 1 <= lines.len() && joined(lines.take(start - 1))
                == body@.take(from as int),
        decreases body.len() - i,
    {
        if body[i] == 10 {
            proof {
                super::lines::lemma_line_ends(body@, begin as int, i as int);
                lemma_lines_up_to_break(body@, i + 1);
            }
            begin = i + 1;
            closed = closed + 1;
            if closed == start - 1 {
                from = begin;
            }
        }
        i += 1;
    }
    proof {
        lemma_lines_up_to_break(body@, begin as int);
        super::lines::lemma_lines_after_break(body@, begin as int, i as int);
        lemma_line_count(body@);
        super::lines::lemma_lines_make_up_the_source(body@);
        assert(lines.take(lines.len() as int) =~= lines);
        if i == body@.len() {
            assert(body@.take(body@.len() as int) =~= body@);
        }
    }
    let reached: bool = closed == end;
    let total: u64 = if reached || begin == body.len() {
        closed
    } else {
        closed + 1
    };
    let to: usize = if reached {
        begin
    } else {
        body.len()
    };
    assert(!reached ==> total == lines.len());
    let ghost last = if end < lines.len() {
        end as int
    } else {
        lines.len() as int
    };
    assert(joined(lines.take(last)) == body@.take(to as int));
    let mut output: Vec<u8> = Vec::new();
    if total >= start {
        proof {
            lemma_lines_between(body@, lines, from as int, to as int, start - 1, last);
        }
        if to - from > MAX_QUERY_OUTPUT_BYTES {
            return Err(
                join3(
                    "exact line read exceeds 32768 bytes; use yarp read REF ",
                    source.name.as_str(),
                    " --bytes START:END",
                ),
            );
        }
        output = copy(&body[from..to]);
    }
    assert(output@ == lines_between(lines, start, end));
    if !reached && end > total {
        let mut message = join5(
            "line range ",
            decimal(start).as_str(),
            ":",
            decimal(end).as_str(),
            " exceeds ",
        );
        message.append(source.name.as_str());
        message.append(" with ");
        message.append(decimal(total).as_str());
        message.append(" lines");
        return Err(message);
    }
    Ok(output)
}

/// The bytes that a read asks for.
pub open spec fn read_result(request: ReadModel, sources: Seq<VerifiedSource>) -> Result<
    Seq<u8>,
    Seq<char>,
> {
    match chosen_source(sources, request.source) {
        Err(fault) => Err(fault),
        Ok(index) => match request.range {
            ReadRange::Lines { start, end } => line_range(sources[index], start, end),
            ReadRange::Bytes { start, end } => byte_range(sources[index], start, end),
        },
    }
}

/// Read an exact range of the archived call that the arguments name. `sources` are those that
/// the archive holds for it, or why they cannot be had; they matter only once the arguments
/// are valid.
///
/// # Errors
///
/// Returns an error for invalid arguments, sources and ranges.
pub fn read(arguments: &[String], sources: Result<Vec<VerifiedSource>, String>) -> (result: Result<
    Vec<u8>,
    String,
>)
    ensures
        bytes_result(result) == match read_request(texts(arguments@)) {
            Err(fault) => Err(fault),
            Ok(request) => match sources {
                Err(error) => Err(error@),
                Ok(list) => read_result(request, list@),
            },
        },
{
    let request = parse_read(arguments)?;
    let list = sources?;
    let index: usize = choose_source(&list, &request.source)?;
    match request.range {
        ReadRange::Lines { start, end } => read_line_range(&list[index], start, end),
        ReadRange::Bytes { start, end } => read_byte_range(&list[index], start, end),
    }
}

} // verus!
