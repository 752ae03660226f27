//! SHA-256 digests and their hexadecimal form.
use vstd::prelude::*;

use crate::text::{hex_digit, to_hex_digit};

verus! {

/// What `sha2::Sha256::digest` returns for some bytes.
pub uninterp spec fn sha256_value(data: Seq<u8>) -> [u8; 32];

/// The SHA-256 digest of some bytes.
pub open spec fn sha256(data: Seq<u8>) -> Seq<u8> {
    sha256_value(data)@
}

/// Calls `sha2::Sha256::digest`, whose result depends on the bytes alone.
#[verifier::external_body]
pub(crate) fn sha256_digest(data: &[u8]) -> (digest: [u8; 32])
    ensures
        digest@ == sha256_value(data@)@,
{
    <sha2::Sha256 as sha2::Digest>::digest(data).into()
}

/// The lower-case hexadecimal form of some bytes.
pub open spec fn hex_text(bytes: Seq<u8>) -> Seq<char>
    decreases bytes.len(),
{
    if bytes.len() == 0 {
        Seq::empty()
    } else {
        hex_text(bytes.drop_last()).push(hex_digit(bytes.last() as int / 16)).push(
            hex_digit(bytes.last() as int % 16),
        )
    }
}

/// The value of a lower-case hexadecimal digit.
pub open spec fn hex_value(c: char) -> Option<int> {
    if '0' <= c <= '9' {
        Some(c as int - 48)
    } else if 'a' <= c <= 'f' {
        Some(c as int - 87)
    } else {
        None
    }
}

/// The text is made of lower-case hexadecimal digits.
pub open spec fn is_lower_hex(text: Seq<char>) -> bool {
    forall|i: int| 0 <= i < text.len() ==> hex_value(#[trigger] text[i]) is Some
}

/// Write bytes in lower-case hexadecimal.
pub fn hex(bytes: &[u8]) -> (text: String)
    ensures
        text@ == hex_text(bytes@),
{
    let mut text = String::new();
    let mut i: usize = 0;
    assert(text@ =~= hex_text(bytes@.take(0)));
    while i < bytes.len()
        invariant
            i <= bytes.len(),
            text@ == hex_text(bytes@.take(i as int)),
        decreases bytes.len() - i,
    {
        proof {
            assert(bytes@.take(i + 1).drop_last() =~= bytes@.take(i as int));
            assert(bytes@.take(i + 1).last() == bytes@[i as int]);
        }
        text.push(to_hex_digit(bytes[i] / 16));
        text.push(to_hex_digit(bytes[i] % 16));
        i += 1;
    }
    assert(bytes@.take(bytes@.len() as int) =~= bytes@);
    text
}

/// Write a digest in lower-case hexadecimal.
#[must_use]
pub fn digest_hex(digest: &[u8; 32]) -> (text: String)
    ensures
        text@ == hex_text(digest@),
{
    hex(digest)
}

fn digit_value(c: char) -> (value: Option<u8>)
    ensures
        value is None <==> hex_value(c) is None,
        value matches Some(digit) ==> hex_value(c) == Some(digit as int) && digit < 16,
{
    if '0' <= c && c <= '9' {
        Some((c as u32 - 48) as u8)
    } else if 'a' <= c && c <= 'f' {
        Some((c as u32 - 87) as u8)
    } else {
        None
    }
}

/// Whether all characters are lower-case hexadecimal digits.
pub fn only_lower_hex(characters: &[char]) -> (found: bool)
    ensures
        found == is_lower_hex(characters@),
{
    let mut i: usize = 0;
    while i < characters.len()
        invariant
            i <= characters.len(),
            forall|j: int| 0 <= j < i ==> hex_value(#[trigger] characters@[j]) is Some,
        decreases characters.len() - i,
    {
        if digit_value(characters[i]).is_none() {
            assert(hex_value(characters@[i as int]) is None);
            return false;
        }
        i += 1;
    }
    true
}

/// The value of a hexadecimal digit in either case.
pub open spec fn nibble(byte: u8) -> Option<int> {
    if 48 <= byte <= 57 {
        Some(byte - 48)
    } else if 97 <= byte <= 102 {
        Some(byte - 87)
    } else if 65 <= byte <= 70 {
        Some(byte - 55)
    } else {
        None
    }
}

/// Every byte is a hexadecimal digit.
pub open spec fn all_nibbles(text: Seq<u8>) -> bool {
    forall|i: int| 0 <= i < text.len() ==> nibble(#[trigger] text[i]) is Some
}

/// The bytes that pairs of hexadecimal digits write.
pub open spec fn paired(text: Seq<u8>) -> Seq<u8> {
    Seq::new(
        text.len() / 2,
        |i: int| (nibble(text[2 * i])->0 * 16 + nibble(text[2 * i + 1])->0) as u8,
    )
}

/// The digest that a text writes.
pub open spec fn digest_of(text: Seq<u8>) -> Result<Seq<u8>, Seq<char>> {
    if text.len() != 64 {
        Err("rule pack digest must contain 32 bytes"@)
    } else if !all_nibbles(text) {
        Err("rule pack digest must be hexadecimal"@)
    } else {
        Ok(paired(text))
    }
}

fn hex_nibble(byte: u8) -> (value: Option<u8>)
    ensures
        value is None <==> nibble(byte) is None,
        value matches Some(digit) ==> nibble(byte) == Some(digit as int) && digit < 16,
{
    if 48 <= byte && byte <= 57 {
        Some(byte - 48)
    } else if 97 <= byte && byte <= 102 {
        Some(byte - 87)
    } else if 65 <= byte && byte <= 70 {
        Some(byte - 55)
    } else {
        None
    }
}

/// Read a digest in hexadecimal.
///
/// # Errors
///
/// Returns an error when the text does not hold exactly 64 hexadecimal digits.
pub fn parse_digest(value: &str) -> (result: Result<[u8; 32], String>)
    ensures
        match (result, digest_of(vstd::utf8::encode_utf8(value@))) {
            (Ok(digest), Ok(bytes)) => digest@ == bytes,
            (Err(error), Err(fault)) => error@ == fault,
            _ => false,
        },
{
    let text: &[u8] = value.as_bytes();
    if text.len() != 64 {
        return Err("rule pack digest must contain 32 bytes".to_owned());
    }
    let mut output: [u8; 32] = [0u8; 32];
    let mut i: usize = 0;
    while i < 32
        invariant
            i <= 32,
            text@ == vstd::utf8::encode_utf8(value@),
            text@.len() == 64,
            forall|j: int| 0 <= j < 2 * i ==> nibble(#[trigger] text@[j]) is Some,
            forall|j: int| 0 <= j < i ==> output@[j] == paired(text@)[j],
        decreases 32 - i,
    {
        let high = match hex_nibble(text[2 * i]) {
            Some(digit) => digit,
            None => {
                assert(nibble(text@[2 * i]) is None);
                return Err("rule pack digest must be hexadecimal".to_owned());
            },
        };
        let low = match hex_nibble(text[2 * i + 1]) {
            Some(digit) => digit,
            None => {
                assert(nibble(text@[2 * i + 1]) is None);
                return Err("rule pack digest must be hexadecimal".to_owned());
            },
        };
        output[i] = high * 16 + low;
        i += 1;
    }
    assert(output@ =~= paired(text@));
    Ok(output)
}

proof fn lemma_hex_text(bytes: Seq<u8>)
    ensures
        hex_text(bytes).len() == 2 * bytes.len(),
        forall|i: int|
            0 <= i < bytes.len() ==> hex_text(bytes)[2 * i] == hex_digit(
                #[trigger] bytes[i] as int / 16,
            ) && hex_text(bytes)[2 * i + 1] == hex_digit(bytes[i] as int % 16),
    decreases bytes.len(),
{
    if bytes.len() > 0 {
        lemma_hex_text(bytes.drop_last());
        assert forall|i: int| 0 <= i < bytes.len() implies hex_text(bytes)[2 * i] == hex_digit(
            #[trigger] bytes[i] as int / 16,
        ) && hex_text(bytes)[2 * i + 1] == hex_digit(bytes[i] as int % 16) by {
            if i < bytes.len() - 1 {
                assert(bytes.drop_last()[i] == bytes[i]);
            }
        }
    }
}

/// A digest that was written in hexadecimal is read back.
pub proof fn lemma_digest_round_trip(digest: Seq<u8>)
    requires
        digest.len() == 32,
    ensures
        digest_of(vstd::utf8::encode_utf8(hex_text(digest))) == Ok::<Seq<u8>, Seq<char>>(digest),
{
    let text = hex_text(digest);
    lemma_hex_text(digest);
    assert forall|i: int| 0 <= i < text.len() implies '\0' <= #[trigger] text[i] <= '\u{7f}' by {
        let pair = i / 2;
        assert(i == 2 * pair || i == 2 * pair + 1);
        assert(0 <= digest[pair] as int / 16 < 16);
        assert(0 <= digest[pair] as int % 16 < 16);
    }
    assert(vstd::utf8::is_ascii_chars(text));
    vstd::utf8::is_ascii_chars_encode_utf8(text);
    let bytes = vstd::utf8::encode_utf8(text);
    assert forall|i: int| 0 <= i < bytes.len() implies nibble(#[trigger] bytes[i]) is Some by {
        let pair = i / 2;
        assert(i == 2 * pair || i == 2 * pair + 1);
        assert(0 <= digest[pair] as int / 16 < 16);
        assert(0 <= digest[pair] as int % 16 < 16);
        assert(bytes[i] == text[i] as u8);
    }
    assert(paired(bytes) =~= digest) by {
        assert forall|i: int| 0 <= i < 32 implies paired(bytes)[i] == digest[i] by {
            assert(bytes[2 * i] == text[2 * i] as u8);
            assert(bytes[2 * i + 1] == text[2 * i + 1] as u8);
        }
    }
}

} // verus!
