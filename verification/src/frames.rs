//! Messages with their length in front.
use vstd::prelude::*;

use crate::bytes::append;
use crate::numbers::{
    append_be, be_bytes, be_value, lemma_be_round_trip, lemma_capacities, lemma_values_in_range,
    lemma_widths, read_be,
};
use crate::text::{decimal, digits, join3};

verus! {

/// The longest message of the archive protocol.
pub const MAX_FRAME_BYTES: u64 = 268_435_456;

/// The longest message of the result protocol.
pub const MAX_RESULT_FRAME_BYTES: u64 = 4_194_304;

/// The longest first message of a client of the archive broker.
pub const HANDSHAKE_MAX_BYTES: u64 = 4_096;

/// A message with its length in front.
pub open spec fn framed(body: Seq<u8>) -> Seq<u8> {
    be_bytes(body.len(), 8) + body
}

/// A message has a length that its protocol allows.
pub open spec fn is_frame_length(length: nat, maximum: u64) -> bool {
    0 < length <= maximum
}

/// Put the length of a message in front of it.
///
/// # Errors
///
/// Returns an error when the message is empty or longer than `maximum`.
pub fn encode_frame(body: &[u8], label: &str, maximum: u64) -> (result: Result<Vec<u8>, String>)
    ensures
        if is_frame_length(body@.len(), maximum) {
            result matches Ok(frame) && frame@ == framed(body@)
        } else {
            result matches Err(error) && error@ == "invalid "@ + label@ + (" length "@ + digits(
                body@.len(),
            ))
        },
{
    let length: u64 = body.len() as u64;
    if length == 0 || length > maximum {
        let amount = crate::text::join2(" length ", decimal(length).as_str());
        return Err(join3("invalid ", label, amount.as_str()));
    }
    let mut frame: Vec<u8> = Vec::new();
    append_be(&mut frame, length, 8);
    assert(frame@ =~= be_bytes(body@.len(), 8));
    append(&mut frame, body);
    Ok(frame)
}

/// Read the length of a message.
///
/// # Errors
///
/// Returns an error when the message would be empty or longer than `maximum`.
pub fn decode_frame_length(header: &[u8; 8], label: &str, maximum: u64) -> (result: Result<
    usize,
    String,
>)
    requires
        maximum <= u32::MAX,
    ensures
        ({
            let length = be_value(header@);
            if !is_frame_length(length, maximum) {
                result matches Err(error) && error@ == "invalid "@ + label@ + (" frame length "@
                    + digits(length))
            } else {
                result matches Ok(bytes) && bytes == length
            }
        }),
{
    proof {
        lemma_values_in_range(header@);
        lemma_capacities();
    }
    let length: u64 = read_be(header);
    if length == 0 || length > maximum {
        let amount = crate::text::join2(" frame length ", decimal(length).as_str());
        return Err(join3("invalid ", label, amount.as_str()));
    }
    Ok(length as usize)
}

/// The length in front of a message is the length of the message.
pub proof fn lemma_frame_round_trip(body: Seq<u8>)
    requires
        body.len() <= u64::MAX,
    ensures
        framed(body).len() == 8 + body.len(),
        be_value(framed(body).take(8)) == body.len(),
        framed(body).skip(8) == body,
{
    lemma_capacities();
    lemma_widths(body.len(), 8);
    lemma_be_round_trip(body.len(), 8);
    assert(framed(body).take(8) =~= be_bytes(body.len(), 8));
    assert(framed(body).skip(8) =~= body);
}

/// What can be done with the bytes of a stream of messages that came so far.
#[derive(Debug)]
pub enum FrameStep {
    /// More bytes are needed.
    Wait,
    /// A message came, which takes some bytes with its length.
    Message { body: Vec<u8>, taken: usize },
    /// The stream ended after a message.
    End,
    Fail(String),
}

/// What a stream of messages begins with, where some bytes came and the stream may have ended.
pub open spec fn is_next_step(
    step: FrameStep,
    input: Seq<u8>,
    ended: bool,
    label: Seq<char>,
    maximum: u64,
) -> bool {
    let length = be_value(input.take(8));
    if input.len() == 0 {
        if ended {
            step is End
        } else {
            step is Wait
        }
    } else if input.len() < 8 {
        if ended {
            step matches FrameStep::Fail(error) && error@ == "truncated "@ + label
                + " frame length: failed to fill whole buffer"@
        } else {
            step is Wait
        }
    } else if !is_frame_length(length, maximum) {
        step matches FrameStep::Fail(error) && error@ == "invalid "@ + label + (" frame length "@
            + digits(length))
    } else if input.len() < 8 + length {
        if ended {
            step matches FrameStep::Fail(error) && error@ == "could not read "@ + label
                + " frame: failed to fill whole buffer"@
        } else {
            step is Wait
        }
    } else {
        step matches FrameStep::Message { body, taken } && body@ == input.subrange(
            8,
            8 + length as int,
        ) && taken == 8 + length
    }
}

/// Take the next message from the bytes of a stream that came so far.
pub fn next_frame(input: &[u8], ended: bool, label: &str, maximum: u64) -> (step: FrameStep)
    requires
        maximum <= u32::MAX,
    ensures
        is_next_step(step, input@, ended, label@, maximum),
{
    if input.len() == 0 {
        return if ended {
            FrameStep::End
        } else {
            FrameStep::Wait
        };
    }
    if input.len() < 8 {
        return if ended {
            FrameStep::Fail(
                join3("truncated ", label, " frame length: failed to fill whole buffer"),
            )
        } else {
            FrameStep::Wait
        };
    }
    let header: &[u8] = &input[0..8];
    assert(header@ =~= input@.take(8));
    proof {
        lemma_values_in_range(header@);
        lemma_capacities();
    }
    let length: u64 = read_be(header);
    if length == 0 || length > maximum {
        let amount = crate::text::join2(" frame length ", decimal(length).as_str());
        return FrameStep::Fail(join3("invalid ", label, amount.as_str()));
    }
    let rest: usize = input.len() - 8;
    if (rest as u64) < length {
        return if ended {
            FrameStep::Fail(
                join3("could not read ", label, " frame: failed to fill whole buffer"),
            )
        } else {
            FrameStep::Wait
        };
    }
    let end: usize = 8 + length as usize;
    let body = crate::bytes::copy(&input[8..end]);
    FrameStep::Message { body, taken: end }
}

/// A message that was framed is the next one that is taken, whatever follows it.
pub proof fn lemma_framed_message_is_taken(
    body: Seq<u8>,
    rest: Seq<u8>,
    ended: bool,
    label: Seq<char>,
    maximum: u64,
    step: FrameStep,
)
    requires
        0 < body.len() <= maximum,
        is_next_step(step, framed(body) + rest, ended, label, maximum),
    ensures
        step matches FrameStep::Message { body: taken, taken: count } && taken@ == body && (framed(
            body,
        ) + rest).skip(count as int) == rest,
{
    lemma_frame_round_trip(body);
    let input = framed(body) + rest;
    assert(input.take(8) =~= framed(body).take(8));
    assert(input.subrange(8, 8 + body.len() as int) =~= framed(body).skip(8));
    assert(input.skip(8 + body.len() as int) =~= rest);
}

/// Take the only message of an input.
///
/// # Errors
///
/// Returns an error when the input ends too soon, when the message is empty or too long, or when
/// something follows it.
pub fn only_frame(input: &[u8], label: &str, maximum: u64) -> (result: Result<Vec<u8>, String>)
    requires
        maximum <= u32::MAX,
    ensures
        ({
            let length = be_value(input@.take(8));
            if input@.len() < 8 {
                result matches Err(error) && error@ == "could not read "@ + label@
                    + " frame length: failed to fill whole buffer"@
            } else if !is_frame_length(length, maximum) {
                result matches Err(error) && error@ == "invalid "@ + label@ + (" frame length "@
                    + digits(length))
            } else if input@.len() < 8 + length {
                result matches Err(error) && error@ == "could not read "@ + label@
                    + " frame: failed to fill whole buffer"@
            } else if input@.len() > 8 + length {
                result matches Err(error) && error@ == label@ + " request contains trailing bytes"@
            } else {
                result matches Ok(body) && body@ == input@.skip(8)
            }
        }),
{
    if input.len() < 8 {
        return Err(
            join3("could not read ", label, " frame length: failed to fill whole buffer"),
        );
    }
    match next_frame(input, true, label, maximum) {
        FrameStep::Message { body, taken } => {
            if taken < input.len() {
                return Err(crate::text::join2(label, " request contains trailing bytes"));
            }
            assert(body@ =~= input@.skip(8));
            Ok(body)
        },
        FrameStep::Fail(error) => Err(error),
        FrameStep::Wait => Ok(Vec::new()),
        FrameStep::End => Ok(Vec::new()),
    }
}

} // verus!
