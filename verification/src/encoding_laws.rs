//! What holds of texts, numbers and digests as bytes.
use vstd::prelude::*;
use vstd::utf8::encode_utf8;

use crate::digest::{digest_of, hex_text, nibble};
use crate::frames::{FrameStep, framed, is_frame_length, is_next_step};
use crate::numbers::{be_bytes, be_value, le_bytes};
use crate::order::{comes_before, precedes, strictly_ascending};
use crate::rule_pack::header::{header_bytes, magic};
use crate::text::{digits, octal_digits, signed_digits};

verus! {

/// Byte strings are ordered by their first difference, the smaller byte first. What a longer one
/// begins with comes before it.
pub proof fn lemma_first_difference_decides(
    common: Seq<u8>,
    low: u8,
    high: u8,
    left: Seq<u8>,
    right: Seq<u8>,
)
    requires
        low < high,
    ensures
        precedes(common.push(low) + left, common.push(high) + right),
        !precedes(common.push(high) + right, common.push(low) + left),
        precedes(common, common.push(low) + left),
        !precedes(common.push(low) + left, common),
    decreases common.len(),
{
    let small = common.push(low) + left;
    let large = common.push(high) + right;
    if common.len() == 0 {
        assert(small[0] == low && large[0] == high);
    } else {
        let rest = common.drop_first();
        lemma_first_difference_decides(rest, low, high, left, right);
        assert(small.drop_first() =~= rest.push(low) + left);
        assert(large.drop_first() =~= rest.push(high) + right);
        assert(small[0] == common[0] && large[0] == common[0]);
    }
}

/// In an ascending list each text comes before the next, by its bytes.
pub proof fn lemma_ascending_lists(values: Seq<Seq<char>>, i: int)
    requires
        strictly_ascending(values),
        0 <= i < values.len() - 1,
    ensures
        precedes(encode_utf8(values[i]), encode_utf8(values[i + 1])),
        comes_before(values[i], values[i + 1]),
{
}

/// Little-endian bytes begin with the lowest part of a number, big-endian bytes end with it.
pub proof fn lemma_ends_of_numbers(value: nat, width: nat)
    requires
        width > 0,
    ensures
        le_bytes(value, width).len() == width,
        be_bytes(value, width).len() == width,
        le_bytes(value, width)[0] as nat == value % 256,
        be_bytes(value, width).last() as nat == value % 256,
        le_bytes(value, width).skip(1) == le_bytes(value / 256, (width - 1) as nat),
        be_bytes(value, width).drop_last() == be_bytes(value / 256, (width - 1) as nat),
        value < 256 && width > 1 ==> le_bytes(value, width).last() == 0 && be_bytes(value, width)[0]
            == 0,
    decreases width,
{
    let rest = (width - 1) as nat;
    if width > 1 {
        lemma_ends_of_numbers(value / 256, rest);
        if rest == 1 {
            assert(le_bytes(value / 256, rest)[0] == le_bytes(value / 256, rest).last());
            assert(be_bytes(value / 256, rest)[0] == be_bytes(value / 256, rest).last());
        }
    }
    assert(le_bytes(value, width).skip(1) =~= le_bytes(value / 256, rest));
    assert(be_bytes(value, width).drop_last() =~= be_bytes(value / 256, rest));
}

/// A message is sent behind eight bytes that give its length, the highest first.
pub proof fn lemma_frames_begin_with_a_length(body: Seq<u8>)
    requires
        body.len() < 256,
    ensures
        framed(body).len() == 8 + body.len(),
        framed(body)[7] as nat == body.len(),
        framed(body)[0] == 0,
        framed(body).skip(8) == body,
{
    lemma_ends_of_numbers(body.len(), 8);
    assert(framed(body).skip(8) =~= body);
}

/// Bytes give a message where they hold a length within the bounds and as many bytes behind it;
/// nothing is given before that. Where fewer came, more are awaited until the stream has ended.
pub proof fn lemma_messages_are_whole(
    step: FrameStep,
    input: Seq<u8>,
    ended: bool,
    label: Seq<char>,
    maximum: u64,
)
    requires
        is_next_step(step, input, ended, label, maximum),
    ensures
        step matches FrameStep::Message { body, taken } ==> {
            &&& input.len() >= 8
            &&& 1 <= body@.len() <= maximum
            &&& body@.len() == be_value(input.take(8))
            &&& taken == 8 + body@.len()
            &&& taken <= input.len()
            &&& body@ == input.take(taken as int).skip(8)
        },
        step is End <==> input.len() == 0 && ended,
        step is Wait ==> !ended,
        !ended && input.len() < 8 ==> step is Wait,
        is_frame_length(0, maximum) == false,
{
    if let FrameStep::Message { body, taken } = step {
        assert(input.take(taken as int).skip(8) =~= body@);
    }
}

/// The lower-case hexadecimal digit of a small number.
pub open spec fn is_digit_for(c: char, value: int) -> bool {
    ||| 0 <= value < 10 && c as int == '0' as int + value
    ||| 10 <= value < 16 && c as int == 'a' as int + value - 10
}

/// Each byte is written as two lower-case hexadecimal digits, the higher half first.
pub proof fn lemma_bytes_in_hexadecimal(bytes: Seq<u8>, i: int)
    requires
        0 <= i < bytes.len(),
    ensures
        hex_text(bytes).len() == 2 * bytes.len(),
        is_digit_for(hex_text(bytes)[2 * i], bytes[i] as int / 16),
        is_digit_for(hex_text(bytes)[2 * i + 1], bytes[i] as int % 16),
    decreases bytes.len(),
{
    let rest = bytes.drop_last();
    if rest.len() == 0 {
        assert(hex_text(rest).len() == 0);
    } else if i < rest.len() {
        lemma_bytes_in_hexadecimal(rest, i);
        assert(rest[i] == bytes[i]);
    } else {
        lemma_bytes_in_hexadecimal(rest, 0);
    }
}

/// A digest is read from 64 hexadecimal digits of either case, and from nothing else.
pub proof fn lemma_texts_of_digests(text: Seq<u8>)
    ensures
        digest_of(text) is Ok <==> text.len() == 64 && forall|i: int|
            0 <= i < 64 ==> 48 <= #[trigger] text[i] <= 57 || 65 <= text[i] <= 70 || 97 <= text[i]
                <= 102,
        digest_of(text) matches Ok(digest) ==> digest.len() == 32,
{
    if text.len() == 64 {
        assert forall|i: int| 0 <= i < 64 implies (nibble(#[trigger] text[i]) is Some <==> (48
            <= text[i] <= 57 || 65 <= text[i] <= 70 || 97 <= text[i] <= 102)) by {}
    }
}

/// A number is written in decimal, its lowest digit last; below zero with a dash in front. Modes are
/// written in octal.
pub proof fn lemma_numbers_are_written(value: nat)
    ensures
        digits(value).len() > 0,
        digits(value).last() as int == '0' as int + value % 10,
        value >= 10 ==> digits(value).drop_last() == digits(value / 10),
        value < 10 ==> digits(value).len() == 1,
        octal_digits(value).len() > 0,
        octal_digits(value).last() as int == '0' as int + value % 8,
        value >= 8 ==> octal_digits(value).drop_last() == octal_digits(value / 8),
        signed_digits(value as int) == digits(value),
        value > 0 ==> signed_digits(-(value as int)) == seq!['-'] + digits(value),
{
    if value >= 10 {
        assert(digits(value).drop_last() =~= digits(value / 10));
    }
    if value >= 8 {
        assert(octal_digits(value).drop_last() =~= octal_digits(value / 8));
    }
}

/// A compiled pack begins with its name, the version of its format, and the versions of the engine
/// that can use it.
pub proof fn lemma_packs_begin_with_their_name(
    pack_id: Seq<u8>,
    rule_count: nat,
    program_count: nat,
    index: Seq<u8>,
    records_len: nat,
    source_digest: Seq<u8>,
)
    ensures
        ({
            let header = header_bytes(
                pack_id,
                rule_count,
                program_count,
                index,
                records_len,
                source_digest,
            );
            &&& header.len() >= 20
            &&& header[0] == 'Y' as u8 && header[1] == 'A' as u8 && header[2] == 'R' as u8
                && header[3] == 'P' as u8
            &&& header[4] == 'R' as u8 && header[5] == 'U' as u8 && header[6] == 'L' as u8
                && header[7] == 0
            &&& header[8] == 1 && header[9] == 0
            &&& header[10] == 1 && header[11] == 0
            &&& header[12] == 1 && header[13] == 0
        }),
{
    reveal_strlit("YARPRUL\0");
    vstd::utf8::is_ascii_chars_encode_utf8("YARPRUL\0"@);
    assert(magic().len() == 8);
    lemma_ends_of_numbers(1, 2);
    lemma_ends_of_numbers(0, 2);
    lemma_ends_of_numbers(128, 4);
    let one = le_bytes(1, 2);
    assert(one.len() == 2 && one[0] == 1 && one[1] == 0);
    let header = header_bytes(
        pack_id,
        rule_count,
        program_count,
        index,
        records_len,
        source_digest,
    );
    let preamble = crate::rule_pack::header::preamble();
    assert(preamble.len() == 20);
    assert forall|i: int| 0 <= i < 20 implies #[trigger] header[i] == preamble[i] by {}
    assert(preamble[8] == one[0] && preamble[9] == one[1]);
    assert(preamble[10] == one[0] && preamble[11] == one[1]);
    assert(preamble[12] == one[0] && preamble[13] == one[1]);
    assert forall|i: int| 0 <= i < 8 implies #[trigger] preamble[i] == magic()[i] by {}
}

} // verus!
