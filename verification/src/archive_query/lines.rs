//! The lines of a source and their visible form.
use vstd::prelude::*;
use vstd::utf8::{encode_utf8, valid_utf8};

use crate::bytes::{strip_line_ending, without_line_ending};
use crate::reducers::filter::{ansi_run, AnsiState, AnsiStripper};
use crate::text::{chars, control, decode, hex_digit, is_control, to_hex_digit};

verus! {

/// The longest line that a search reads, in bytes.
pub const MAX_QUERY_LINE_BYTES: usize = 1_048_576;

/// The line is not yet ended.
pub open spec fn is_open(line: Seq<u8>) -> bool {
    line.len() == 0 || line.last() != 10
}

/// The lines of a source, each with its line break; the last may have none.
pub open spec fn source_lines(source: Seq<u8>) -> Seq<Seq<u8>>
    decreases source.len(),
{
    if source.len() == 0 {
        Seq::empty()
    } else {
        let rest = source_lines(source.drop_last());
        if rest.len() > 0 && is_open(rest.last()) {
            rest.update(rest.len() - 1, rest.last().push(source.last()))
        } else {
            rest.push(seq![source.last()])
        }
    }
}

/// The bytes of some lines in sequence.
pub open spec fn joined(lines: Seq<Seq<u8>>) -> Seq<u8>
    decreases lines.len(),
{
    if lines.len() == 0 {
        Seq::empty()
    } else {
        joined(lines.drop_last()) + lines.last()
    }
}

/// The lines of a source make up the source.
pub proof fn lemma_lines_make_up_the_source(source: Seq<u8>)
    ensures
        joined(source_lines(source)) == source,
    decreases source.len(),
{
    if source.len() > 0 {
        let rest = source_lines(source.drop_last());
        lemma_lines_make_up_the_source(source.drop_last());
        let lines = source_lines(source);
        if rest.len() > 0 && is_open(rest.last()) {
            assert(lines.drop_last() =~= rest.drop_last());
            assert(joined(rest.drop_last()) + rest.last().push(source.last()) =~= (joined(
                rest.drop_last(),
            ) + rest.last()).push(source.last()));
        } else {
            assert(lines.drop_last() =~= rest);
            assert(joined(rest) + seq![source.last()] =~= source);
        }
        assert(source.drop_last().push(source.last()) =~= source);
    }
}

/// The lines of a source up to a line break, and the bytes after it.
pub proof fn lemma_lines_after_break(source: Seq<u8>, start: int, end: int)
    requires
        0 <= start <= end <= source.len(),
        start == 0 || source[start - 1] == 10,
        forall|i: int| start <= i < end ==> source[i] != 10,
    ensures
        source_lines(source.take(end)) == if start < end {
            source_lines(source.take(start)).push(source.subrange(start, end))
        } else {
            source_lines(source.take(start))
        },
        source_lines(source.take(start)).len() > 0 ==> !is_open(
            source_lines(source.take(start)).last(),
        ),
    decreases end,
{
    if start < end {
        lemma_lines_after_break(source, start, end - 1);
        let upper = source.take(end);
        assert(upper.drop_last() =~= source.take(end - 1));
        assert(upper.last() == source[end - 1]);
        let before = source_lines(source.take(start));
        if start < end - 1 {
            let open = source.subrange(start, end - 1);
            assert(open.push(source[end - 1]) =~= source.subrange(start, end));
            assert(before.push(open).update(before.len() as int, open.push(source[end - 1]))
                =~= before.push(source.subrange(start, end)));
        } else {
            assert(seq![source[end - 1]] =~= source.subrange(start, end));
        }
    } else {
        if start > 0 {
            let upper = source.take(start);
            assert(upper.last() == 10);
            lemma_last_line_closed(upper);
        } else {
            assert(source.take(0) =~= Seq::empty());
        }
    }
}

proof fn lemma_last_line_closed(source: Seq<u8>)
    requires
        source.len() > 0,
        source.last() == 10,
    ensures
        source_lines(source).len() > 0,
        !is_open(source_lines(source).last()),
{
}

/// A line break ends the line that is open.
pub proof fn lemma_line_ends(source: Seq<u8>, start: int, end: int)
    requires
        0 <= start <= end < source.len(),
        start == 0 || source[start - 1] == 10,
        forall|i: int| start <= i < end ==> source[i] != 10,
        source[end] == 10,
    ensures
        source_lines(source.take(end + 1)) == source_lines(source.take(start)).push(
            source.subrange(start, end + 1),
        ),
{
    lemma_lines_after_break(source, start, end);
    let upper = source.take(end + 1);
    assert(upper.drop_last() =~= source.take(end));
    assert(upper.last() == 10);
    let before = source_lines(source.take(start));
    if start < end {
        let open = source.subrange(start, end);
        assert(open.push(10u8) =~= source.subrange(start, end + 1));
        assert(before.push(open).update(before.len() as int, open.push(10u8)) =~= before.push(
            source.subrange(start, end + 1),
        ));
    } else {
        assert(seq![10u8] =~= source.subrange(start, end + 1));
    }
}

/// The lines that are complete in a part of a source are lines of the whole.
pub proof fn lemma_lines_prefix(source: Seq<u8>, end: int)
    requires
        0 < end <= source.len(),
        source[end - 1] == 10,
    ensures
        source_lines(source.take(end)).len() <= source_lines(source).len(),
        source_lines(source).take(source_lines(source.take(end)).len() as int) == source_lines(
            source.take(end),
        ),
    decreases source.len() - end,
{
    lemma_lines_extend(source, end, source.len() as int);
    assert(source.take(source.len() as int) =~= source);
}

proof fn lemma_lines_extend(source: Seq<u8>, end: int, to: int)
    requires
        0 < end <= to <= source.len(),
        source[end - 1] == 10,
    ensures
        source_lines(source.take(end)).len() <= source_lines(source.take(to)).len(),
        source_lines(source.take(to)).take(source_lines(source.take(end)).len() as int)
            == source_lines(source.take(end)),
        to == end || source_lines(source.take(to)).len() > source_lines(source.take(end)).len(),
    decreases to - end,
{
    let closed = source_lines(source.take(end));
    if to == end {
        assert(closed.take(closed.len() as int) =~= closed);
    } else {
        lemma_lines_extend(source, end, to - 1);
        let upper = source.take(to);
        assert(upper.drop_last() =~= source.take(to - 1));
        let rest = source_lines(source.take(to - 1));
        if to - 1 == end {
            assert(source.take(end).last() == 10);
            assert(rest.len() > 0 ==> !is_open(rest.last()));
        }
        assert(source_lines(upper).take(closed.len() as int) =~= rest.take(closed.len() as int));
    }
}

/// How a character is shown: control characters other than the tab are written as escapes.
pub open spec fn visible_character(c: char) -> Seq<char> {
    if c == '\t' || !is_control(c) {
        seq![c]
    } else if c as u32 <= 0x7f {
        "\\x"@.push(hex_digit(c as u32 as int / 16)).push(hex_digit(c as u32 as int % 16))
    } else {
        "\\u{"@.push(hex_digit(c as u32 as int / 16)).push(hex_digit(c as u32 as int % 16)) + "}"@
    }
}

/// How a text is shown.
pub open spec fn visible_text(text: Seq<char>) -> Seq<char>
    decreases text.len(),
{
    if text.len() == 0 {
        Seq::empty()
    } else {
        visible_text(text.drop_last()) + visible_character(text.last())
    }
}

/// The visible form of a raw line, without control sequences and its line ending.
pub open spec fn normalized_line(raw: Seq<u8>, state: AnsiState) -> Result<Seq<char>, Seq<char>> {
    let clean = without_line_ending(ansi_run(state, raw).1);
    if !valid_utf8(clean) {
        Err("archived source is not valid UTF-8; use yarp read --bytes"@)
    } else {
        let text = visible_text(vstd::utf8::decode_utf8(clean));
        if encode_utf8(text).len() > MAX_QUERY_LINE_BYTES {
            Err("normalized archived source line exceeds 1 MiB"@)
        } else {
            Ok(text)
        }
    }
}

/// A result with its contents.
pub open spec fn text_result(result: Result<String, String>) -> Result<Seq<char>, Seq<char>> {
    match result {
        Ok(text) => Ok(text@),
        Err(error) => Err(error@),
    }
}

fn append_visible(text: &mut String, c: char)
    ensures
        final(text)@ == old(text)@ + visible_character(c),
{
    let ghost before = text@;
    if c == '\t' || !control(c) {
        text.push(c);
        assert(text@ =~= before + visible_character(c));
        return ;
    }
    let code: u32 = c as u32;
    let high: char = to_hex_digit((code / 16) as u8);
    let low: char = to_hex_digit((code % 16) as u8);
    if code <= 0x7f {
        text.append("\\x");
        text.push(high);
        text.push(low);
    } else {
        text.append("\\u{");
        text.push(high);
        text.push(low);
        text.append("}");
    }
    assert(text@ =~= before + visible_character(c));
}

proof fn lemma_visible_text_grows(text: Seq<char>, count: int)
    requires
        0 <= count <= text.len(),
    ensures
        encode_utf8(visible_text(text.take(count))).len() <= encode_utf8(visible_text(text)).len(),
    decreases text.len() - count,
{
    if count == text.len() {
        assert(text.take(count) =~= text);
    } else {
        lemma_visible_text_grows(text, count + 1);
        assert(text.take(count + 1).drop_last() =~= text.take(count));
        crate::text::lemma_utf8_concat(
            visible_text(text.take(count)),
            visible_character(text.take(count + 1).last()),
        );
    }
}

/// Bring a raw line into its visible form.
///
/// # Errors
///
/// Returns an error when the line is not UTF-8 or its visible form is too long.
pub fn normalize_line(raw: &[u8], ansi: &mut AnsiStripper) -> (result: Result<String, String>)
    ensures
        text_result(result) == normalized_line(raw@, old(ansi)@),
        final(ansi)@ == ansi_run(old(ansi)@, raw@).0,
{
    let ghost state = ansi@;
    let mut clean: Vec<u8> = Vec::new();
    let mut i: usize = 0;
    assert(ansi_run(state, raw@.take(0)) == (state, clean@)) by {
        assert(clean@ =~= Seq::empty());
    }
    while i < raw.len()
        invariant
            i <= raw.len(),
            ansi_run(state, raw@.take(i as int)) == (ansi@, clean@),
        decreases raw.len() - i,
    {
        proof {
            assert(raw@.take(i + 1).drop_last() =~= raw@.take(i as int));
            assert(raw@.take(i + 1).last() == raw@[i as int]);
        }
        if let Some(byte) = ansi.push_byte(raw[i]) {
            clean.push(byte);
        }
        i += 1;
    }
    assert(raw@.take(raw@.len() as int) =~= raw@);
    let body = strip_line_ending(clean.as_slice());
    let Some(decoded) = decode(body) else {
        return Err("archived source is not valid UTF-8; use yarp read --bytes".to_owned());
    };
    proof {
        vstd::utf8::encode_utf8_decode_utf8(decoded@);
    }
    let characters = chars(decoded.as_str());
    let ghost all = decoded@;
    assert(all == vstd::utf8::decode_utf8(body@));
    let mut text = String::new();
    let mut j: usize = 0;
    assert(text@ =~= visible_text(all.take(0)));
    while j < characters.len()
        invariant
            j <= characters.len(),
            characters@ == all,
            text@ == visible_text(all.take(j as int)),
            j > 0 ==> encode_utf8(text@).len() <= MAX_QUERY_LINE_BYTES,
            valid_utf8(without_line_ending(ansi_run(state, raw@).1)),
            all == vstd::utf8::decode_utf8(without_line_ending(ansi_run(state, raw@).1)),
            ansi@ == ansi_run(state, raw@).0,
            state == old(ansi)@,
        decreases characters.len() - j,
    {
        append_visible(&mut text, characters[j]);
        proof {
            assert(all.take(j + 1).drop_last() =~= all.take(j as int));
            assert(all.take(j + 1).last() == all[j as int]);
            lemma_visible_text_grows(all, j + 1);
        }
        if text.as_str().as_bytes().len() > MAX_QUERY_LINE_BYTES {
            return Err("normalized archived source line exceeds 1 MiB".to_owned());
        }
        j += 1;
    }
    assert(all.take(all.len() as int) =~= all);
    assert(all.len() == 0 ==> text@ =~= Seq::empty());
    Ok(text)
}

/// How many characters of `text` fit in `limit` bytes, counted from `from` on.
pub open spec fn fitting_characters(text: Seq<char>, limit: nat, from: int) -> int
    decreases text.len() - from,
{
    if from < 0 || from >= text.len() || encode_utf8(text.take(from + 1)).len() > limit {
        from
    } else {
        fitting_characters(text, limit, from + 1)
    }
}

/// A text as a result line shows it: at most 4096 bytes.
pub open spec fn display_text(text: Seq<char>) -> Seq<char> {
    if encode_utf8(text).len() <= 4_096 {
        text
    } else {
        text.take(fitting_characters(text, 4_093, 0)) + "..."@
    }
}

proof fn lemma_fitting_in_range(text: Seq<char>, limit: nat, from: int)
    requires
        0 <= from <= text.len(),
        encode_utf8(text.take(from)).len() <= limit,
    ensures
        from <= fitting_characters(text, limit, from) <= text.len(),
        encode_utf8(text.take(fitting_characters(text, limit, from))).len() <= limit,
    decreases text.len() - from,
{
    if from < text.len() && encode_utf8(text.take(from + 1)).len() <= limit {
        lemma_fitting_in_range(text, limit, from + 1);
    }
}

/// A shown text takes at most 4096 bytes.
pub proof fn lemma_display_text_bounded(text: Seq<char>)
    ensures
        encode_utf8(display_text(text)).len() <= 4_096,
{
    assert(text.take(0) =~= Seq::empty());
    lemma_fitting_in_range(text, 4_093, 0);
    let kept = text.take(fitting_characters(text, 4_093, 0));
    crate::text::lemma_utf8_concat(kept, "..."@);
    reveal_strlit("...");
    vstd::utf8::is_ascii_chars_encode_utf8("..."@);
}

/// The number of bytes that a character takes in UTF-8.
fn utf8_width(c: char) -> (width: usize)
    ensures
        width == vstd::utf8::encode_scalar(c as u32).len(),
        1 <= width <= 4,
{
    let code: u32 = c as u32;
    if code <= 0x7f {
        1
    } else if code <= 0x7ff {
        2
    } else if code <= 0xffff {
        3
    } else {
        4
    }
}

proof fn lemma_utf8_push(text: Seq<char>, c: char)
    ensures
        encode_utf8(text.push(c)).len() == encode_utf8(text).len() + vstd::utf8::encode_scalar(
            c as u32,
        ).len(),
{
    crate::text::lemma_utf8_concat(text, seq![c]);
    assert(text + seq![c] =~= text.push(c));
    let one = seq![c];
    assert(one.drop_first() =~= Seq::empty());
    assert(encode_utf8(one.drop_first()) =~= Seq::empty());
    assert(encode_utf8(one) =~= vstd::utf8::encode_scalar(c as u32));
}

/// Cut a line to the bytes that a result shows.
pub fn truncate_display_line(value: &str) -> (line: String)
    ensures
        line@ == display_text(value@),
{
    if value.as_bytes().len() <= 4_096 {
        return value.to_owned();
    }
    let characters = chars(value);
    let ghost text = value@;
    let mut count: usize = 0;
    let mut bytes: usize = 0;
    assert(text.take(0) =~= Seq::empty());
    while count < characters.len()
        invariant
            count <= characters.len(),
            characters@ == text,
            bytes == encode_utf8(text.take(count as int)).len(),
            bytes <= 4_093,
            fitting_characters(text, 4_093, 0) == fitting_characters(text, 4_093, count as int),
        ensures
            count == fitting_characters(text, 4_093, 0),
            count <= characters.len(),
        decreases characters.len() - count,
    {
        let width: usize = utf8_width(characters[count]);
        proof {
            lemma_utf8_push(text.take(count as int), text[count as int]);
            assert(text.take(count as int).push(text[count as int]) =~= text.take(count + 1));
        }
        if bytes + width > 4_093 {
            break ;
        }
        bytes += width;
        count += 1;
    }
    let mut line = crate::text::from_chars(&characters.as_slice()[0..count]);
    assert(line@ =~= text.take(count as int));
    line.append("...");
    line
}

} // verus!
