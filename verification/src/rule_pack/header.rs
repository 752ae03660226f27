//! The header of a compiled pack.
use vstd::prelude::*;

use super::model::ENGINE_ABI_VERSION;
use super::validation::MAX_RULES;
use crate::bytes::{append, copy, lemma_occurs_in_parts, lit, occurs_at, same_bytes};
use crate::digest::{sha256, sha256_digest};
use crate::numbers::{
    append_le, capacity, le_bytes, le_value, lemma_capacities, lemma_le_round_trip,
    lemma_values_in_range, lemma_widths, read_le,
};
use crate::text::{decimal, digits, join4};

verus! {

/// The length of a header.
pub const HEADER_LEN: usize = 128;

/// The most programs that the index of a pack can list.
pub const MAX_PROGRAMS: usize = 320_000;

/// The fields of a header.
#[derive(Clone, Copy)]
pub struct ParsedHeader {
    pub pack_id_len: usize,
    pub rule_count: usize,
    pub program_count: usize,
    pub index_len: usize,
    pub records_len: u64,
    pub source_digest: [u8; 32],
    pub header_index_digest: [u8; 32],
}

/// The contents of a [`ParsedHeader`].
#[verifier::ext_equal]
pub struct HeaderModel {
    pub pack_id_len: nat,
    pub rule_count: nat,
    pub program_count: nat,
    pub index_len: nat,
    pub records_len: nat,
    pub source_digest: Seq<u8>,
    pub header_index_digest: Seq<u8>,
}

impl View for ParsedHeader {
    type V = HeaderModel;

    open spec fn view(&self) -> HeaderModel {
        HeaderModel {
            pack_id_len: self.pack_id_len as nat,
            rule_count: self.rule_count as nat,
            program_count: self.program_count as nat,
            index_len: self.index_len as nat,
            records_len: self.records_len as nat,
            source_digest: self.source_digest@,
            header_index_digest: self.header_index_digest@,
        }
    }
}

/// A run of zero bytes.
pub open spec fn zeros(count: nat) -> Seq<u8> {
    Seq::new(count, |i: int| 0u8)
}

/// The first eight bytes of every compiled pack.
pub open spec fn magic() -> Seq<u8> {
    lit("YARPRUL\0")
}

/// The part of a header that says how to read it.
pub open spec fn preamble() -> Seq<u8> {
    magic() + le_bytes(1, 2) + le_bytes(1, 2) + le_bytes(1, 2) + le_bytes(0, 2) + le_bytes(128, 4)
}

/// The part of a header in front of its digest.
pub open spec fn header_fields(
    pack_id_len: nat,
    rule_count: nat,
    program_count: nat,
    index_len: nat,
    records_len: nat,
    source_digest: Seq<u8>,
) -> Seq<u8> {
    preamble() + le_bytes(pack_id_len, 4) + le_bytes(rule_count, 4) + le_bytes(program_count, 4)
        + le_bytes(index_len, 8) + le_bytes(records_len, 8) + source_digest
}

/// The digest of a header without its own digest, of the pack id and of the index.
pub open spec fn index_digest(header: Seq<u8>, pack_id: Seq<u8>, index: Seq<u8>) -> Seq<u8> {
    sha256(
        lit("yarp-rule-index-v1\0") + header.subrange(0, 80) + zeros(32) + header.subrange(112, 128)
            + pack_id + index,
    )
}

/// A header around its digest.
pub open spec fn header_around(fields: Seq<u8>, digest: Seq<u8>) -> Seq<u8> {
    fields + digest + zeros(16)
}

/// The header of a pack.
pub open spec fn header_bytes(
    pack_id: Seq<u8>,
    rule_count: nat,
    program_count: nat,
    index: Seq<u8>,
    records_len: nat,
    source_digest: Seq<u8>,
) -> Seq<u8> {
    let fields = header_fields(
        pack_id.len(),
        rule_count,
        program_count,
        index.len(),
        records_len,
        source_digest,
    );
    header_around(fields, index_digest(header_around(fields, zeros(32)), pack_id, index))
}

/// Why a header cannot be written.
pub open spec fn header_fault(pack_id_len: nat, rule_count: nat, program_count: nat) -> Option<
    Seq<char>,
> {
    if pack_id_len > u32::MAX {
        Some("pack id is too long"@)
    } else if rule_count > u32::MAX {
        Some("too many rules"@)
    } else if program_count > u32::MAX {
        Some("too many programs"@)
    } else {
        None
    }
}

/// The number in `width` bytes of a header.
pub open spec fn field(header: Seq<u8>, at: int, width: int) -> nat {
    le_value(header.subrange(at, at + width))
}

/// The fields of a header, which stands in front of a file of `file_len` bytes.
pub open spec fn parsed_header(header: Seq<u8>, file_len: u64) -> Result<HeaderModel, Seq<char>> {
    let expected = 128 + field(header, 20, 4) + field(header, 32, 8) + field(header, 40, 8);
    if header.subrange(0, 8) != magic() {
        Err("invalid compiled pack magic"@)
    } else if field(header, 8, 2) != 1 {
        Err("unsupported compiled pack format"@)
    } else if ENGINE_ABI_VERSION < field(header, 10, 2) || ENGINE_ABI_VERSION > field(
        header,
        12,
        2,
    ) {
        Err(
            "engine ABI 1 is outside supported range "@ + digits(field(header, 10, 2)) + "..="@
                + digits(field(header, 12, 2)),
        )
    } else if field(header, 14, 2) != 0 || field(header, 16, 4) != HEADER_LEN {
        Err("invalid compiled pack header"@)
    } else if header.subrange(112, 128) != zeros(16) {
        Err("compiled pack reserved header bytes are not zero"@)
    } else if field(header, 32, 8) > usize::MAX {
        Err("compiled index length does not fit usize"@)
    } else if field(header, 20, 4) == 0 || field(header, 20, 4) > 128 {
        Err("invalid compiled pack id length"@)
    } else if field(header, 24, 4) == 0 || field(header, 24, 4) > MAX_RULES || field(header, 28, 4)
        == 0 || field(header, 28, 4) > MAX_PROGRAMS {
        Err("invalid compiled pack counts"@)
    } else if expected > u64::MAX {
        Err("compiled pack length overflowed"@)
    } else if expected != file_len {
        Err(
            "compiled pack length mismatch: expected "@ + digits(expected) + ", got "@ + digits(
                file_len as nat,
            ),
        )
    } else {
        Ok(
            HeaderModel {
                pack_id_len: field(header, 20, 4),
                rule_count: field(header, 24, 4),
                program_count: field(header, 28, 4),
                index_len: field(header, 32, 8),
                records_len: field(header, 40, 8),
                source_digest: header.subrange(48, 80),
                header_index_digest: header.subrange(80, 112),
            },
        )
    }
}

fn append_zeros(output: &mut Vec<u8>, count: usize)
    ensures
        final(output)@ == old(output)@ + zeros(count as nat),
{
    let ghost before = output@;
    let mut i: usize = 0;
    assert(output@ =~= before + zeros(0));
    while i < count
        invariant
            i <= count,
            output@ == before + zeros(i as nat),
        decreases count - i,
    {
        output.push(0);
        i += 1;
        assert(output@ =~= before + zeros(i as nat));
    }
}

/// The digest that a header holds of itself, of the pack id and of the index.
pub fn header_index_digest(header: &[u8], pack_id: &[u8], index: &[u8]) -> (digest: [u8; 32])
    requires
        header@.len() == HEADER_LEN,
    ensures
        digest@ == index_digest(header@, pack_id@, index@),
{
    let mut input: Vec<u8> = copy("yarp-rule-index-v1\0".as_bytes());
    append(&mut input, &header[0..80]);
    append_zeros(&mut input, 32);
    append(&mut input, &header[112..128]);
    append(&mut input, pack_id);
    append(&mut input, index);
    sha256_digest(input.as_slice())
}

proof fn lemma_magic_len()
    ensures
        magic().len() == 8,
{
    reveal_strlit("YARPRUL\0");
    assert(vstd::utf8::is_ascii_chars("YARPRUL\0"@));
    vstd::utf8::is_ascii_chars_encode_utf8("YARPRUL\0"@);
}

proof fn lemma_preamble_len()
    ensures
        preamble().len() == 20,
{
    lemma_magic_len();
    lemma_widths(1, 2);
    lemma_widths(0, 2);
    lemma_widths(128, 4);
}

proof fn lemma_fields_len(
    pack_id_len: nat,
    rule_count: nat,
    program_count: nat,
    index_len: nat,
    records_len: nat,
    source_digest: Seq<u8>,
)
    requires
        source_digest.len() == 32,
    ensures
        header_fields(
            pack_id_len,
            rule_count,
            program_count,
            index_len,
            records_len,
            source_digest,
        ).len() == 80,
{
    lemma_preamble_len();
    lemma_widths(pack_id_len, 4);
    lemma_widths(rule_count, 4);
    lemma_widths(program_count, 4);
    lemma_widths(index_len, 8);
    lemma_widths(records_len, 8);
}

/// Write the header of a pack.
///
/// # Errors
///
/// Returns an error when the length of the pack id or a count does not fit its field.
pub fn encode_header(
    pack_id: &[u8],
    rule_count: usize,
    program_count: usize,
    index: &[u8],
    records: &[u8],
    source_digest: &[u8; 32],
) -> (result: Result<Vec<u8>, String>)
    ensures
        match header_fault(pack_id@.len(), rule_count as nat, program_count as nat) {
            None => result matches Ok(header) && header@.len() == HEADER_LEN && header@
                == header_bytes(
                pack_id@,
                rule_count as nat,
                program_count as nat,
                index@,
                records@.len(),
                source_digest@,
            ),
            Some(fault) => result matches Err(error) && error@ == fault,
        },
{
    if pack_id.len() > 0xffff_ffff {
        return Err("pack id is too long".to_owned());
    }
    if rule_count > 0xffff_ffff {
        return Err("too many rules".to_owned());
    }
    if program_count > 0xffff_ffff {
        return Err("too many programs".to_owned());
    }
    let mut fields: Vec<u8> = copy("YARPRUL\0".as_bytes());
    append_le(&mut fields, 1, 2);
    append_le(&mut fields, 1, 2);
    append_le(&mut fields, 1, 2);
    append_le(&mut fields, 0, 2);
    append_le(&mut fields, 128, 4);
    assert(fields@ == preamble());
    append_le(&mut fields, pack_id.len() as u64, 4);
    append_le(&mut fields, rule_count as u64, 4);
    append_le(&mut fields, program_count as u64, 4);
    append_le(&mut fields, index.len() as u64, 8);
    append_le(&mut fields, records.len() as u64, 8);
    append(&mut fields, source_digest.as_slice());
    proof {
        lemma_fields_len(
            pack_id@.len(),
            rule_count as nat,
            program_count as nat,
            index@.len(),
            records@.len(),
            source_digest@,
        );
    }
    let mut blank: Vec<u8> = copy(fields.as_slice());
    append_zeros(&mut blank, 32);
    append_zeros(&mut blank, 16);
    let digest = header_index_digest(blank.as_slice(), pack_id, index);
    let mut header: Vec<u8> = fields;
    append(&mut header, digest.as_slice());
    append_zeros(&mut header, 16);
    Ok(header)
}

fn read_field(header: &[u8], at: usize, width: usize) -> (value: u64)
    requires
        at + width <= header@.len(),
        header@.len() == HEADER_LEN,
        width <= 8,
    ensures
        value == field(header@, at as int, width as int),
        value < capacity(width as nat),
{
    proof {
        lemma_values_in_range(header@.subrange(at as int, at + width));
    }
    read_le(&header[at..at + width])
}

fn read_digest(header: &[u8], at: usize) -> (digest: [u8; 32])
    requires
        at + 32 <= header@.len(),
        header@.len() == HEADER_LEN,
    ensures
        digest@ == header@.subrange(at as int, at + 32),
{
    let mut digest: [u8; 32] = [0u8; 32];
    let mut i: usize = 0;
    while i < 32
        invariant
            i <= 32,
            at + 32 <= header@.len(),
            header@.len() == HEADER_LEN,
            forall|j: int| 0 <= j < i ==> digest@[j] == header@[at + j],
        decreases 32 - i,
    {
        digest[i] = header[at + i];
        i += 1;
    }
    assert(digest@ =~= header@.subrange(at as int, at + 32));
    digest
}

/// Read the header of a file of `file_len` bytes.
///
/// # Errors
///
/// Returns an error when the header is of another format or engine, or when it does not describe
/// a file of that length.
pub fn parse_header(header: &[u8], file_len: u64) -> (result: Result<ParsedHeader, String>)
    requires
        header@.len() == HEADER_LEN,
    ensures
        match parsed_header(header@, file_len) {
            Ok(model) => result matches Ok(parsed) && parsed@ == model,
            Err(fault) => result matches Err(error) && error@ == fault,
        },
{
    proof {
        lemma_capacities();
    }
    if !same_bytes(&header[0..8], "YARPRUL\0".as_bytes()) {
        return Err("invalid compiled pack magic".to_owned());
    }
    if read_field(header, 8, 2) != 1 {
        return Err("unsupported compiled pack format".to_owned());
    }
    let abi_min: u64 = read_field(header, 10, 2);
    let abi_max: u64 = read_field(header, 12, 2);
    if (ENGINE_ABI_VERSION as u64) < abi_min || ENGINE_ABI_VERSION as u64 > abi_max {
        return Err(
            join4(
                "engine ABI 1 is outside supported range ",
                decimal(abi_min).as_str(),
                "..=",
                decimal(abi_max).as_str(),
            ),
        );
    }
    if read_field(header, 14, 2) != 0 || read_field(header, 16, 4) != HEADER_LEN as u64 {
        return Err("invalid compiled pack header".to_owned());
    }
    let mut i: usize = 112;
    while i < 128
        invariant
            112 <= i <= 128,
            header@.len() == HEADER_LEN,
            forall|j: int| 112 <= j < i ==> header@[j] == 0,
            header@.subrange(0, 8) == magic(),
            field(header@, 8, 2) == 1,
            field(header@, 10, 2) <= ENGINE_ABI_VERSION <= field(header@, 12, 2),
            field(header@, 14, 2) == 0,
            field(header@, 16, 4) == HEADER_LEN,
        decreases 128 - i,
    {
        if header[i] != 0 {
            assert(header@.subrange(112, 128)[i - 112] != zeros(16)[i - 112]);
            return Err("compiled pack reserved header bytes are not zero".to_owned());
        }
        i += 1;
    }
    assert(header@.subrange(112, 128) =~= zeros(16));
    let pack_id_len: u64 = read_field(header, 20, 4);
    let rule_count: u64 = read_field(header, 24, 4);
    let program_count: u64 = read_field(header, 28, 4);
    let index_len: u64 = read_field(header, 32, 8);
    if index_len > usize::MAX as u64 {
        return Err("compiled index length does not fit usize".to_owned());
    }
    let records_len: u64 = read_field(header, 40, 8);
    if pack_id_len == 0 || pack_id_len > 128 {
        return Err("invalid compiled pack id length".to_owned());
    }
    if rule_count == 0 || rule_count > MAX_RULES as u64 || program_count == 0 || program_count
        > MAX_PROGRAMS as u64 {
        return Err("invalid compiled pack counts".to_owned());
    }
    let Some(before_records) = (128 + pack_id_len).checked_add(index_len) else {
        return Err("compiled pack length overflowed".to_owned());
    };
    let Some(expected_len) = before_records.checked_add(records_len) else {
        return Err("compiled pack length overflowed".to_owned());
    };
    if expected_len != file_len {
        return Err(
            join4(
                "compiled pack length mismatch: expected ",
                decimal(expected_len).as_str(),
                ", got ",
                decimal(file_len).as_str(),
            ),
        );
    }
    Ok(
        ParsedHeader {
            pack_id_len: pack_id_len as usize,
            rule_count: rule_count as usize,
            program_count: program_count as usize,
            index_len: index_len as usize,
            records_len,
            source_digest: read_digest(header, 48),
            header_index_digest: read_digest(header, 80),
        },
    )
}

proof fn lemma_field(header: Seq<u8>, at: int, value: nat, width: nat)
    requires
        occurs_at(header, le_bytes(value, width), at),
        value < capacity(width),
    ensures
        field(header, at, width as int) == value,
{
    lemma_le_round_trip(value, width);
}

/// A header that was written is read back, and holds the digest of itself, of the pack id and of
/// the index.
pub proof fn lemma_header_round_trip(
    pack_id: Seq<u8>,
    rule_count: nat,
    program_count: nat,
    index: Seq<u8>,
    records_len: nat,
    source_digest: Seq<u8>,
    file_len: u64,
)
    requires
        0 < pack_id.len() <= 128,
        0 < rule_count <= MAX_RULES,
        0 < program_count <= MAX_PROGRAMS,
        index.len() <= usize::MAX,
        source_digest.len() == 32,
        file_len == 128 + pack_id.len() + index.len() + records_len,
    ensures
        ({
            let header = header_bytes(
                pack_id,
                rule_count,
                program_count,
                index,
                records_len,
                source_digest,
            );
            &&& header.len() == HEADER_LEN
            &&& parsed_header(header, file_len) == Ok::<HeaderModel, Seq<char>>(
                (HeaderModel {
                    pack_id_len: pack_id.len(),
                    rule_count,
                    program_count,
                    index_len: index.len(),
                    records_len,
                    source_digest,
                    header_index_digest: index_digest(header, pack_id, index),
                }),
            )
        }),
{
    let fields = header_fields(
        pack_id.len(),
        rule_count,
        program_count,
        index.len(),
        records_len,
        source_digest,
    );
    let blank = header_around(fields, zeros(32));
    let digest = index_digest(blank, pack_id, index);
    let header = header_around(fields, digest);
    let a = preamble();
    let b = le_bytes(pack_id.len(), 4);
    let c = le_bytes(rule_count, 4);
    let d = le_bytes(program_count, 4);
    let e = le_bytes(index.len(), 8);
    let f = le_bytes(records_len, 8);
    lemma_fields_len(
        pack_id.len(),
        rule_count,
        program_count,
        index.len(),
        records_len,
        source_digest,
    );
    lemma_preamble_len();
    lemma_magic_len();
    lemma_capacities();
    lemma_widths(1, 2);
    lemma_widths(0, 2);
    lemma_widths(128, 4);
    lemma_widths(pack_id.len(), 4);
    lemma_widths(rule_count, 4);
    lemma_widths(program_count, 4);
    lemma_widths(index.len(), 8);
    lemma_widths(records_len, 8);
    assert(header.subrange(0, 80) =~= fields);
    assert(blank.subrange(0, 80) =~= fields);
    assert(header.subrange(80, 112) =~= digest);
    assert(header.subrange(112, 128) =~= zeros(16));
    assert(blank.subrange(112, 128) =~= zeros(16));
    assert(header.subrange(0, 0int + fields.len()) =~= fields);
    lemma_occurs_in_parts(header, a + b + c + d + e + f, source_digest, 0);
    lemma_occurs_in_parts(header, a + b + c + d + e, f, 0);
    lemma_occurs_in_parts(header, a + b + c + d, e, 0);
    lemma_occurs_in_parts(header, a + b + c, d, 0);
    lemma_occurs_in_parts(header, a + b, c, 0);
    lemma_occurs_in_parts(header, a, b, 0);
    let m = magic();
    let one = le_bytes(1, 2);
    let nil = le_bytes(0, 2);
    lemma_occurs_in_parts(header, m + one + one + one + nil, le_bytes(128, 4), 0);
    lemma_occurs_in_parts(header, m + one + one + one, nil, 0);
    lemma_occurs_in_parts(header, m + one + one, one, 0);
    lemma_occurs_in_parts(header, m + one, one, 0);
    lemma_occurs_in_parts(header, m, one, 0);
    lemma_field(header, 8, 1, 2);
    lemma_field(header, 10, 1, 2);
    lemma_field(header, 12, 1, 2);
    lemma_field(header, 14, 0, 2);
    lemma_field(header, 16, 128, 4);
    lemma_field(header, 20, pack_id.len(), 4);
    lemma_field(header, 24, rule_count, 4);
    lemma_field(header, 28, program_count, 4);
    lemma_field(header, 32, index.len(), 8);
    lemma_field(header, 40, records_len, 8);
}

} // verus!
