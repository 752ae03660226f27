//! How contents are stored: under their digest, compressed where that saves space.
use vstd::prelude::*;

use crate::bytes::{copy, same_bytes};
use crate::digest::{sha256, sha256_digest};
use crate::frames::MAX_FRAME_BYTES;
use crate::text::{
    decimal, digits, join2, join3, join4, join5, same_text, signed_decimal,
    signed_digits,
};

verus! {

/// How hard the compression tries.
pub const ZSTD_LEVEL: i32 = 3;

/// The block in which contents are read while they are measured.
pub const READ_BLOCK: u64 = 65_536;

/// What Zstandard makes of some contents at a level, or why it fails.
pub uninterp spec fn zstd_compressed(data: Seq<u8>, level: i32) -> Result<Seq<u8>, Seq<char>>;

/// What Zstandard restores from some bytes, or what is said to be wrong with them.
pub uninterp spec fn zstd_restored(data: Seq<u8>) -> Result<Seq<u8>, Seq<char>>;

/// Calls `zstd::stream::encode_all`, which writes the contents as a Zstandard frame. The contract
/// says that the result, the text of an error among it, depends on the contents and the level
/// alone, and that decoding what was written gives the contents back. Running out of memory is left
/// aside, as it is for every allocation.
#[verifier::external_body]
fn zstd_encode(data: &[u8], level: i32) -> (result: Result<Vec<u8>, String>)
    ensures
        match result {
            Ok(compressed) => zstd_compressed(data@, level) matches Ok(named) && named
                == compressed@,
            Err(reason) => zstd_compressed(data@, level) matches Err(named) && named == reason@,
        },
        result matches Ok(compressed) ==> (zstd_restored(compressed@) matches Ok(named) && named
            == data@),
{
    zstd::stream::encode_all(data, level).map_err(|error| error.to_string())
}

/// Calls `zstd::stream::decode_all`, which reads Zstandard frames. The contract says that the
/// result, the text of an error among it, depends on the bytes alone. Running out of memory is left
/// aside, as it is for every allocation.
#[verifier::external_body]
fn zstd_decode(data: &[u8]) -> (result: Result<Vec<u8>, String>)
    ensures
        match result {
            Ok(restored) => zstd_restored(data@) matches Ok(named) && named == restored@,
            Err(reason) => zstd_restored(data@) matches Err(named) && named == reason@,
        },
{
    zstd::stream::decode_all(data).map_err(|error| error.to_string())
}

/// Contents that are ready to be stored.
#[derive(Clone, Debug)]
pub struct PreparedPayload {
    pub sha: Vec<u8>,
    pub compressed: bool,
    pub uncompressed_length: u64,
    pub stored: Vec<u8>,
}

/// The stored name of the way in which contents are kept.
pub open spec fn compression_name(compressed: bool) -> Seq<char> {
    if compressed {
        "zstd"@
    } else {
        "none"@
    }
}

/// What stored bytes hold, given the name of the way in which they are kept, or why that cannot be
/// told.
pub open spec fn restored(compression: Seq<char>, stored: Seq<u8>) -> Result<Seq<u8>, Seq<char>> {
    if compression == "none"@ {
        Ok(stored)
    } else if compression == "zstd"@ {
        zstd_restored(stored)
    } else {
        Err("unknown payload compression "@ + compression)
    }
}

/// Compressed contents take little enough space to be stored: at most 95 percent.
pub open spec fn is_worth_it(compressed_length: nat, length: nat) -> bool {
    compressed_length * 100 <= length * 95
}

impl PreparedPayload {
    /// The payload stands for some contents: it has their digest and length, and they can be
    /// restored from it.
    pub open spec fn holds(&self, contents: Seq<u8>) -> bool {
        &&& self.sha@ == sha256(contents)
        &&& self.uncompressed_length == contents.len()
        &&& restored(compression_name(self.compressed), self.stored@) matches Ok(restored)
            && restored == contents
    }

    /// The payload is what some contents are prepared to.
    pub open spec fn prepares(&self, contents: Seq<u8>) -> bool {
        &&& self.holds(contents)
        &&& zstd_compressed(contents, ZSTD_LEVEL) matches Ok(smaller) && {
            &&& self.compressed == is_worth_it(smaller.len(), contents.len())
            &&& self.stored@ == if self.compressed {
                smaller
            } else {
                contents
            }
        }
    }

    /// The name of the way in which the contents are kept.
    pub fn compression(&self) -> (name: &'static str)
        ensures
            name@ == compression_name(self.compressed),
    {
        if self.compressed {
            "zstd"
        } else {
            "none"
        }
    }

    /// The bytes that the payload takes.
    pub fn stored_length(&self) -> (length: u64)
        ensures
            length == self.stored@.len(),
    {
        self.stored.len() as u64
    }

    /// The lengths that a row of the archive holds: that of the stored bytes and that of the
    /// contents.
    ///
    /// # Errors
    ///
    /// Returns an error when one of them does not fit in the row.
    pub fn row_lengths(&self) -> (result: Result<(i64, i64), String>)
        ensures
            if self.stored@.len() > i64::MAX {
                result matches Err(error) && error@ == "payload is too large for SQLite: "@
                    + digits(self.stored@.len()) + " bytes"@
            } else if self.uncompressed_length > i64::MAX {
                result matches Err(error) && error@ == "payload is too large: "@ + digits(
                    self.uncompressed_length as nat,
                ) + " bytes"@
            } else {
                result matches Ok((stored, length)) && stored == self.stored@.len() && length
                    == self.uncompressed_length
            },
    {
        let stored = self.stored_length();
        if stored > i64::MAX as u64 {
            return Err(
                join3("payload is too large for SQLite: ", decimal(stored).as_str(), " bytes"),
            );
        }
        if self.uncompressed_length > i64::MAX as u64 {
            return Err(
                join3(
                    "payload is too large: ",
                    decimal(self.uncompressed_length).as_str(),
                    " bytes",
                ),
            );
        }
        Ok((stored as i64, self.uncompressed_length as i64))
    }
}

/// How much of contents that are too long is read before that is noticed.
pub open spec fn noticed_length(length: nat) -> nat {
    if length <= MAX_FRAME_BYTES + READ_BLOCK {
        length
    } else {
        (MAX_FRAME_BYTES + READ_BLOCK) as nat
    }
}

/// Prepare contents to be stored.
///
/// # Errors
///
/// Returns an error when the contents are too long or cannot be compressed.
pub fn prepare_payload(contents: &[u8]) -> (result: Result<PreparedPayload, String>)
    ensures
        if contents@.len() > MAX_FRAME_BYTES {
            result matches Err(error) && error@ == "prepared payload is "@ + digits(
                noticed_length(contents@.len()),
            ) + " bytes; maximum is "@ + digits(MAX_FRAME_BYTES as nat)
        } else {
            match zstd_compressed(contents@, ZSTD_LEVEL) {
                Ok(_) => result matches Ok(payload) && payload.prepares(contents@),
                Err(reason) => result matches Err(error) && error@
                    == "could not compress prepared payload: "@ + reason,
            }
        },
{
    let length: u64 = contents.len() as u64;
    if length > MAX_FRAME_BYTES {
        let noticed: u64 = if length <= MAX_FRAME_BYTES + READ_BLOCK {
            length
        } else {
            MAX_FRAME_BYTES + READ_BLOCK
        };
        return Err(
            join4(
                "prepared payload is ",
                decimal(noticed).as_str(),
                " bytes; maximum is ",
                decimal(MAX_FRAME_BYTES).as_str(),
            ),
        );
    }
    match payload_of(contents) {
        Ok(payload) => Ok(payload),
        Err(reason) => Err(join2("could not compress prepared payload: ", reason.as_str())),
    }
}

/// Encode contents of any length to be stored.
///
/// # Errors
///
/// Returns an error when the contents cannot be compressed.
pub fn encode_payload(contents: &[u8]) -> (result: Result<PreparedPayload, String>)
    ensures
        match zstd_compressed(contents@, ZSTD_LEVEL) {
            Ok(_) => result matches Ok(payload) && payload.prepares(contents@),
            Err(reason) => result matches Err(error) && error@ == "could not compress payload: "@
                + reason,
        },
{
    match payload_of(contents) {
        Ok(payload) => Ok(payload),
        Err(reason) => Err(join2("could not compress payload: ", reason.as_str())),
    }
}

fn payload_of(contents: &[u8]) -> (result: Result<PreparedPayload, String>)
    ensures
        match result {
            Ok(payload) => payload.prepares(contents@),
            Err(reason) => zstd_compressed(contents@, ZSTD_LEVEL) matches Err(named) && named
                == reason@,
        },
{
    let length: u64 = contents.len() as u64;
    let sha = copy(sha256_digest(contents).as_slice());
    let smaller = zstd_encode(contents, ZSTD_LEVEL)?;
    let compressed = (smaller.len() as u128) * 100 <= (length as u128) * 95;
    proof {
        reveal_strlit("none");
        reveal_strlit("zstd");
        assert("none"@[0] != "zstd"@[0]);
    }
    let stored = if compressed {
        smaller
    } else {
        copy(contents)
    };
    Ok(PreparedPayload { sha, compressed, uncompressed_length: length, stored })
}

/// A payload takes no more bytes than its contents.
pub proof fn lemma_payload_is_no_longer(payload: PreparedPayload, contents: Seq<u8>)
    requires
        payload.prepares(contents),
    ensures
        payload.stored@.len() <= contents.len(),
{
}

/// What restoring a payload gives: the contents, or what is wrong with it.
pub open spec fn restores_to(
    result: Result<Vec<u8>, String>,
    label: Seq<char>,
    sha: Seq<u8>,
    compression: Seq<char>,
    length: i64,
    stored: Seq<u8>,
) -> bool {
    if compression != "none"@ && compression != "zstd"@ {
        result matches Err(error) && error@ == "unknown payload compression "@ + compression
    } else if length < 0 {
        result matches Err(error) && error@ == "invalid "@ + label + " payload length "@
            + signed_digits(length as int)
    } else {
        match restored(compression, stored) {
            Err(reason) => result matches Err(error) && error@ == "could not read "@ + label
                + " payload: "@ + reason,
            Ok(contents) => if contents.len() == length && sha256(contents) == sha {
                result matches Ok(bytes) && bytes@ == contents
            } else {
                result matches Err(error) && error@ == label
                    + " payload failed integrity verification"@
            },
        }
    }
}

/// Restore the contents of a payload, and check them against their digest and length.
///
/// # Errors
///
/// Returns an error when the payload cannot be read or does not hold what it should.
pub fn restore_payload(
    label: &str,
    sha: &[u8],
    compression: &str,
    length: i64,
    stored: &[u8],
) -> (result: Result<Vec<u8>, String>)
    ensures
        restores_to(result, label@, sha@, compression@, length, stored@),
{
    let plain = same_text(compression, "none");
    if !plain && !same_text(compression, "zstd") {
        return Err(join2("unknown payload compression ", compression));
    }
    if length < 0 {
        return Err(
            join4("invalid ", label, " payload length ", signed_decimal(length).as_str()),
        );
    }
    let contents = if plain {
        copy(stored)
    } else {
        match zstd_decode(stored) {
            Ok(contents) => contents,
            Err(reason) => {
                return Err(join4("could not read ", label, " payload: ", reason.as_str()));
            },
        }
    };
    let digest = sha256_digest(contents.as_slice());
    if contents.len() as u64 != length as u64 || !same_bytes(digest.as_slice(), sha) {
        return Err(join2(label, " payload failed integrity verification"));
    }
    Ok(contents)
}

/// What the stored bytes of a payload give back is what was prepared: a payload that holds some
/// contents is restored to them.
pub proof fn lemma_payload_round_trip(
    payload: PreparedPayload,
    contents: Seq<u8>,
    label: Seq<char>,
    result: Result<Vec<u8>, String>,
)
    requires
        payload.holds(contents),
        payload.uncompressed_length <= i64::MAX,
        restores_to(
            result,
            label,
            payload.sha@,
            compression_name(payload.compressed),
            payload.uncompressed_length as i64,
            payload.stored@,
        ),
    ensures
        result matches Ok(bytes) && bytes@ == contents,
{
}

/// The errors that the check of a stored payload finds.
pub open spec fn payload_errors(
    row: i64,
    sha: Seq<u8>,
    length: i64,
    contents: Seq<u8>,
) -> Seq<Seq<char>> {
    let name = "payload "@ + signed_digits(row as int);
    let wrong_length = if length < 0 || contents.len() != length {
        seq![
            name + " length "@ + digits(contents.len()) + ", expected "@ + signed_digits(
                length as int,
            ),
        ]
    } else {
        Seq::empty()
    };
    let wrong_digest = if sha256(contents) != sha {
        seq![name + " SHA-256 mismatch"@]
    } else {
        Seq::empty()
    };
    wrong_length + wrong_digest
}

/// Check a stored payload, and tell what is wrong with it.
///
/// # Errors
///
/// Returns an error when the payload cannot be decompressed.
pub fn check_payload(row: i64, sha: &[u8], compression: &str, length: i64, stored: &[u8]) -> (result:
    Result<Vec<String>, String>)
    ensures
        if compression@ != "none"@ && compression@ != "zstd"@ {
            result matches Ok(errors) && crate::text::texts(errors@) == seq![
                "payload "@ + signed_digits(row as int) + " has unknown compression "@
                    + compression@,
            ]
        } else {
            match restored(compression@, stored@) {
                Err(reason) => result matches Err(error) && error@ == "could not read payload "@
                    + signed_digits(row as int) + ": "@ + reason,
                Ok(contents) => result matches Ok(errors) && crate::text::texts(errors@)
                    == payload_errors(row, sha@, length, contents),
            }
        },
{
    let name = join2("payload ", signed_decimal(row).as_str());
    let mut errors: Vec<String> = Vec::new();
    let plain = same_text(compression, "none");
    if !plain && !same_text(compression, "zstd") {
        errors.push(join3(name.as_str(), " has unknown compression ", compression));
        assert(crate::text::texts(errors@) =~= seq![
            "payload "@ + signed_digits(row as int) + " has unknown compression "@ + compression@,
        ]);
        return Ok(errors);
    }
    let contents = if plain {
        copy(stored)
    } else {
        match zstd_decode(stored) {
            Ok(contents) => contents,
            Err(reason) => {
                return Err(
                    join4(
                        "could not read payload ",
                        signed_decimal(row).as_str(),
                        ": ",
                        reason.as_str(),
                    ),
                );
            },
        }
    };
    let amount: u64 = contents.len() as u64;
    if length < 0 || amount != length as u64 {
        errors.push(
            join5(
                name.as_str(),
                " length ",
                decimal(amount).as_str(),
                ", expected ",
                signed_decimal(length).as_str(),
            ),
        );
    }
    let digest = sha256_digest(contents.as_slice());
    if !same_bytes(digest.as_slice(), sha) {
        errors.push(join2(name.as_str(), " SHA-256 mismatch"));
    }
    assert(crate::text::texts(errors@) =~= payload_errors(row, sha@, length, contents@));
    Ok(errors)
}

/// A payload that holds some contents has no errors.
pub proof fn lemma_prepared_payload_is_sound(
    payload: PreparedPayload,
    contents: Seq<u8>,
    row: i64,
)
    requires
        payload.holds(contents),
        payload.uncompressed_length <= i64::MAX,
    ensures
        payload_errors(row, payload.sha@, payload.uncompressed_length as i64, contents) == Seq::<
            Seq<char>,
        >::empty(),
{
}

/// The media type of output: text where it is valid UTF-8.
pub open spec fn media_type_of(contents: Seq<u8>) -> Seq<char> {
    if vstd::utf8::valid_utf8(contents) {
        "text/plain; charset=utf-8"@
    } else {
        "application/octet-stream"@
    }
}

/// Tell the media type of output.
pub fn stream_media_type(contents: &[u8]) -> (media_type: &'static str)
    ensures
        media_type@ == media_type_of(contents@),
{
    if crate::text::decode(contents).is_some() {
        "text/plain; charset=utf-8"
    } else {
        "application/octet-stream"
    }
}

} // verus!
