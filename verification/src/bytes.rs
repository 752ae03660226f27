//! Byte-string vocabulary: searching, ASCII case folding, trimming and decimal rendering.
use vstd::prelude::*;
use vstd::utf8::encode_utf8;

verus! {

/// The UTF-8 bytes of a string literal.
pub open spec fn lit(text: &str) -> Seq<u8> {
    encode_utf8(text@)
}

/// `needle` stands in `hay` at offset `at`.
pub open spec fn occurs_at(hay: Seq<u8>, needle: Seq<u8>, at: int) -> bool {
    0 <= at && at + needle.len() <= hay.len() && hay.subrange(at, at + needle.len()) == needle
}

/// `hay` begins with `prefix`.
pub open spec fn has_prefix(hay: Seq<u8>, prefix: Seq<u8>) -> bool {
    occurs_at(hay, prefix, 0)
}

/// `hay` ends with `suffix`.
pub open spec fn has_suffix(hay: Seq<u8>, suffix: Seq<u8>) -> bool {
    occurs_at(hay, suffix, hay.len() - suffix.len())
}

/// `needle` stands somewhere in `hay`.
pub open spec fn has_infix(hay: Seq<u8>, needle: Seq<u8>) -> bool {
    exists|at: int| #[trigger] occurs_at(hay, needle, at)
}

/// `at` is the first offset at which `needle` stands in `hay`.
pub open spec fn occurs_first_at(hay: Seq<u8>, needle: Seq<u8>, at: int) -> bool {
    occurs_at(hay, needle, at) && forall|earlier: int|
        0 <= earlier < at ==> !occurs_at(hay, needle, earlier)
}

/// The first offset at which `needle` stands in `hay`.
pub open spec fn first_occurrence(hay: Seq<u8>, needle: Seq<u8>) -> int {
    choose|at: int| #[trigger] occurs_first_at(hay, needle, at)
}

/// There is one first offset.
pub proof fn lemma_first_occurrence(hay: Seq<u8>, needle: Seq<u8>, at: int)
    requires
        occurs_first_at(hay, needle, at),
    ensures
        first_occurrence(hay, needle) == at,
        has_infix(hay, needle),
{
    let chosen = first_occurrence(hay, needle);
    assert(occurs_first_at(hay, needle, chosen));
    if chosen < at {
        assert(!occurs_at(hay, needle, chosen));
    } else if at < chosen {
        assert(!occurs_at(hay, needle, at));
    }
}

/// Where something occurs, it occurs for a first time.
pub proof fn lemma_occurs_first(hay: Seq<u8>, needle: Seq<u8>, at: int)
    requires
        occurs_at(hay, needle, at),
    ensures
        occurs_first_at(hay, needle, first_occurrence(hay, needle)),
    decreases at,
{
    if exists|earlier: int| 0 <= earlier < at && occurs_at(hay, needle, earlier) {
        let earlier = choose|earlier: int| 0 <= earlier < at && occurs_at(hay, needle, earlier);
        lemma_occurs_first(hay, needle, earlier);
    } else {
        assert(occurs_first_at(hay, needle, at));
        lemma_first_occurrence(hay, needle, at);
    }
}

/// Where a concatenation occurs, its parts occur one after the other.
pub proof fn lemma_occurs_in_parts(hay: Seq<u8>, first: Seq<u8>, second: Seq<u8>, at: int)
    requires
        occurs_at(hay, first + second, at),
    ensures
        occurs_at(hay, first, at),
        occurs_at(hay, second, at + first.len()),
{
    let whole = hay.subrange(at, at + (first + second).len());
    assert(whole == first + second);
    assert(hay.subrange(at, at + first.len()) =~= first) by {
        assert forall|i: int| 0 <= i < first.len() implies hay[at + i] == first[i] by {
            assert(whole[i] == (first + second)[i]);
        }
    }
    assert(hay.subrange(at + first.len(), at + first.len() + second.len()) =~= second) by {
        assert forall|i: int| 0 <= i < second.len() implies hay[at + first.len() + i]
            == second[i] by {
            assert(whole[first.len() + i] == (first + second)[first.len() + i]);
        }
    }
}

/// The part of `hay` in front of the first `needle`; all of it where there is none.
pub open spec fn before_first(hay: Seq<u8>, needle: Seq<u8>) -> Seq<u8> {
    if has_infix(hay, needle) {
        hay.subrange(0, first_occurrence(hay, needle))
    } else {
        hay
    }
}

/// The ASCII lower-case form of a byte.
pub open spec fn lower(byte: u8) -> u8 {
    if 65 <= byte <= 90 {
        (byte + 32) as u8
    } else {
        byte
    }
}

/// A byte string with every ASCII letter in lower case.
pub open spec fn folded(value: Seq<u8>) -> Seq<u8> {
    value.map_values(|byte: u8| lower(byte))
}

/// `prefix` opens `hay` up to ASCII case.
pub open spec fn has_prefix_folded(hay: Seq<u8>, prefix: Seq<u8>) -> bool {
    has_prefix(folded(hay), folded(prefix))
}

/// A non-empty `needle` stands in `hay` up to ASCII case.
pub open spec fn has_infix_folded(hay: Seq<u8>, needle: Seq<u8>) -> bool {
    needle.len() > 0 && has_infix(folded(hay), folded(needle))
}

/// `hay` begins with one of `prefixes`.
pub open spec fn has_any_prefix(hay: Seq<u8>, prefixes: Seq<&str>) -> bool {
    exists|i: int| 0 <= i < prefixes.len() && has_prefix(hay, lit(#[trigger] prefixes[i]))
}

/// `hay` begins with one of `prefixes` up to ASCII case.
pub open spec fn has_any_prefix_folded(hay: Seq<u8>, prefixes: Seq<&str>) -> bool {
    exists|i: int| 0 <= i < prefixes.len() && has_prefix_folded(hay, lit(#[trigger] prefixes[i]))
}

/// One of `needles` stands in `hay`.
pub open spec fn has_any_infix(hay: Seq<u8>, needles: Seq<&str>) -> bool {
    exists|i: int| 0 <= i < needles.len() && has_infix(hay, lit(#[trigger] needles[i]))
}

/// One of `needles` stands in `hay` up to ASCII case.
pub open spec fn has_any_infix_folded(hay: Seq<u8>, needles: Seq<&str>) -> bool {
    exists|i: int| 0 <= i < needles.len() && has_infix_folded(hay, lit(#[trigger] needles[i]))
}

/// A space or a horizontal tab.
pub open spec fn is_blank(byte: u8) -> bool {
    byte == 32 || byte == 9
}

/// `value` without its leading spaces and tabs.
pub open spec fn without_leading_blanks(value: Seq<u8>) -> Seq<u8>
    decreases value.len(),
{
    if value.len() > 0 && is_blank(value[0]) {
        without_leading_blanks(value.drop_first())
    } else {
        value
    }
}

/// `value` without its trailing spaces and tabs.
pub open spec fn without_trailing_blanks(value: Seq<u8>) -> Seq<u8>
    decreases value.len(),
{
    if value.len() > 0 && is_blank(value.last()) {
        without_trailing_blanks(value.drop_last())
    } else {
        value
    }
}

/// `value` without one trailing `\r\n` or `\n`.
pub open spec fn without_line_ending(value: Seq<u8>) -> Seq<u8> {
    if value.len() >= 2 && value[value.len() - 2] == 13 && value.last() == 10 {
        value.subrange(0, value.len() - 2)
    } else if value.len() >= 1 && value.last() == 10 {
        value.drop_last()
    } else {
        value
    }
}

/// The decimal digits of `value`, without leading zeros.
pub open spec fn decimal(value: nat) -> Seq<u8>
    decreases value,
{
    if value < 10 {
        seq![(48 + value) as u8]
    } else {
        decimal(value / 10).push((48 + value % 10) as u8)
    }
}

/// The number of decimal digits grows with the value.
pub proof fn lemma_decimal_len_monotone(small: nat, large: nat)
    requires
        small <= large,
    ensures
        1 <= decimal(small).len() <= decimal(large).len(),
    decreases large,
{
    if large >= 10 {
        lemma_decimal_len_monotone(small / 10, large / 10);
    }
}

/// A 64-bit value has at most twenty decimal digits.
pub proof fn lemma_decimal_len_u64(value: nat)
    requires
        value <= u64::MAX,
    ensures
        1 <= decimal(value).len() <= 20,
{
    lemma_decimal_len_monotone(value, u64::MAX as nat);
    assert(decimal(u64::MAX as nat).len() == 20) by {
        reveal_with_fuel(decimal, 21);
    }
}

pub proof fn lemma_folded_len(value: Seq<u8>)
    ensures
        folded(value).len() == value.len(),
{
}

/// Lower one ASCII byte.
pub fn to_lower(byte: u8) -> (lowered: u8)
    ensures
        lowered == lower(byte),
{
    if 65 <= byte && byte <= 90 {
        byte + 32
    } else {
        byte
    }
}

/// Compare two byte strings.
pub fn same_bytes(left: &[u8], right: &[u8]) -> (same: bool)
    ensures
        same == (left@ == right@),
{
    if left.len() != right.len() {
        return false;
    }
    let mut i: usize = 0;
    while i < left.len()
        invariant
            i <= left.len(),
            left.len() == right.len(),
            forall|j: int| 0 <= j < i ==> left@[j] == right@[j],
        decreases left.len() - i,
    {
        if left[i] != right[i] {
            return false;
        }
        i += 1;
    }
    assert(left@ =~= right@);
    true
}

/// Compare `needle` with the bytes of `hay` that start at `at`.
pub fn is_at(hay: &[u8], needle: &[u8], at: usize) -> (found: bool)
    ensures
        found == occurs_at(hay@, needle@, at as int),
{
    if at > hay.len() || needle.len() > hay.len() - at {
        return false;
    }
    let mut i: usize = 0;
    while i < needle.len()
        invariant
            i <= needle.len(),
            at + needle.len() <= hay.len(),
            forall|j: int| 0 <= j < i ==> hay@[at + j] == needle@[j],
        decreases needle.len() - i,
    {
        if hay[at + i] != needle[i] {
            assert(hay@.subrange(at as int, at + needle@.len())[i as int] != needle@[i as int]);
            return false;
        }
        i += 1;
    }
    assert(hay@.subrange(at as int, at + needle@.len()) =~= needle@);
    true
}

/// Compare `needle` with the bytes of `hay` that start at `at`, up to ASCII case.
pub fn is_at_folded(hay: &[u8], needle: &[u8], at: usize) -> (found: bool)
    ensures
        found == occurs_at(folded(hay@), folded(needle@), at as int),
{
    if at > hay.len() || needle.len() > hay.len() - at {
        return false;
    }
    let mut i: usize = 0;
    while i < needle.len()
        invariant
            i <= needle.len(),
            at + needle.len() <= hay.len(),
            forall|j: int| 0 <= j < i ==> lower(hay@[at + j]) == lower(needle@[j]),
        decreases needle.len() - i,
    {
        if to_lower(hay[at + i]) != to_lower(needle[i]) {
            assert(folded(hay@).subrange(at as int, at + needle@.len())[i as int]
                != folded(needle@)[i as int]);
            return false;
        }
        i += 1;
    }
    assert(folded(hay@).subrange(at as int, at + needle@.len()) =~= folded(needle@));
    true
}

/// Whether `hay` begins with `prefix`.
pub fn starts_with(hay: &[u8], prefix: &[u8]) -> (found: bool)
    ensures
        found == has_prefix(hay@, prefix@),
{
    is_at(hay, prefix, 0)
}

/// Whether `hay` begins with `prefix`, up to ASCII case.
pub fn starts_with_folded(hay: &[u8], prefix: &[u8]) -> (found: bool)
    ensures
        found == has_prefix_folded(hay@, prefix@),
{
    is_at_folded(hay, prefix, 0)
}

/// Whether `hay` ends with `suffix`.
pub fn ends_with(hay: &[u8], suffix: &[u8]) -> (found: bool)
    ensures
        found == has_suffix(hay@, suffix@),
{
    if suffix.len() > hay.len() {
        return false;
    }
    is_at(hay, suffix, hay.len() - suffix.len())
}

/// The offset of the first occurrence of `needle`.
pub fn find(hay: &[u8], needle: &[u8]) -> (position: Option<usize>)
    ensures
        position is None <==> !has_infix(hay@, needle@),
        position matches Some(at) ==> occurs_first_at(hay@, needle@, at as int) && at
            == first_occurrence(hay@, needle@),
{
    if needle.len() > hay.len() {
        return None;
    }
    let mut at: usize = 0;
    while at <= hay.len() - needle.len()
        invariant
            needle.len() <= hay.len(),
            at <= hay.len() - needle.len() + 1,
            forall|earlier: int| 0 <= earlier < at ==> !occurs_at(hay@, needle@, earlier),
        decreases hay.len() - needle.len() + 1 - at,
    {
        if is_at(hay, needle, at) {
            proof {
                lemma_first_occurrence(hay@, needle@, at as int);
            }
            return Some(at);
        }
        assert(needle@.len() == 0 ==> hay@.subrange(at as int, at as int) =~= needle@);
        at += 1;
    }
    None
}

/// The offset of the first occurrence of `needle`, up to ASCII case.
pub fn find_folded(hay: &[u8], needle: &[u8]) -> (position: Option<usize>)
    ensures
        position is None <==> !has_infix(folded(hay@), folded(needle@)),
        position matches Some(at) ==> occurs_first_at(folded(hay@), folded(needle@), at as int)
            && at == first_occurrence(folded(hay@), folded(needle@)),
{
    if needle.len() > hay.len() {
        return None;
    }
    let mut at: usize = 0;
    while at <= hay.len() - needle.len()
        invariant
            needle.len() <= hay.len(),
            at <= hay.len() - needle.len() + 1,
            forall|earlier: int|
                0 <= earlier < at ==> !occurs_at(folded(hay@), folded(needle@), earlier),
        decreases hay.len() - needle.len() + 1 - at,
    {
        if is_at_folded(hay, needle, at) {
            proof {
                lemma_first_occurrence(folded(hay@), folded(needle@), at as int);
            }
            return Some(at);
        }
        assert(needle@.len() == 0 ==> folded(hay@).subrange(at as int, at as int) =~= folded(
            needle@,
        ));
        at += 1;
    }
    None
}

/// Whether `needle` stands in `hay`.
pub fn contains(hay: &[u8], needle: &[u8]) -> (found: bool)
    ensures
        found == has_infix(hay@, needle@),
{
    find(hay, needle).is_some()
}

/// Whether a non-empty `needle` stands in `hay`, up to ASCII case.
pub fn contains_folded(hay: &[u8], needle: &[u8]) -> (found: bool)
    ensures
        found == has_infix_folded(hay@, needle@),
{
    needle.len() > 0 && find_folded(hay, needle).is_some()
}

/// Whether `hay` begins with one of `prefixes`.
pub fn starts_with_any(hay: &[u8], prefixes: &[&str]) -> (found: bool)
    ensures
        found == has_any_prefix(hay@, prefixes@),
{
    let mut i: usize = 0;
    while i < prefixes.len()
        invariant
            i <= prefixes.len(),
            forall|j: int| 0 <= j < i ==> !has_prefix(hay@, lit(#[trigger] prefixes@[j])),
        decreases prefixes.len() - i,
    {
        if starts_with(hay, prefixes[i].as_bytes()) {
            assert(has_prefix(hay@, lit(prefixes@[i as int])));
            return true;
        }
        i += 1;
    }
    false
}

/// Whether `hay` begins with one of `prefixes`, up to ASCII case.
pub fn starts_with_any_folded(hay: &[u8], prefixes: &[&str]) -> (found: bool)
    ensures
        found == has_any_prefix_folded(hay@, prefixes@),
{
    let mut i: usize = 0;
    while i < prefixes.len()
        invariant
            i <= prefixes.len(),
            forall|j: int| 0 <= j < i ==> !has_prefix_folded(hay@, lit(#[trigger] prefixes@[j])),
        decreases prefixes.len() - i,
    {
        if starts_with_folded(hay, prefixes[i].as_bytes()) {
            assert(has_prefix_folded(hay@, lit(prefixes@[i as int])));
            return true;
        }
        i += 1;
    }
    false
}

/// Whether one of `needles` stands in `hay`.
pub fn contains_any(hay: &[u8], needles: &[&str]) -> (found: bool)
    ensures
        found == has_any_infix(hay@, needles@),
{
    let mut i: usize = 0;
    while i < needles.len()
        invariant
            i <= needles.len(),
            forall|j: int| 0 <= j < i ==> !has_infix(hay@, lit(#[trigger] needles@[j])),
        decreases needles.len() - i,
    {
        if contains(hay, needles[i].as_bytes()) {
            assert(has_infix(hay@, lit(needles@[i as int])));
            return true;
        }
        i += 1;
    }
    false
}

/// Whether one of `needles` stands in `hay`, up to ASCII case.
pub fn contains_any_folded(hay: &[u8], needles: &[&str]) -> (found: bool)
    ensures
        found == has_any_infix_folded(hay@, needles@),
{
    let mut i: usize = 0;
    while i < needles.len()
        invariant
            i <= needles.len(),
            forall|j: int| 0 <= j < i ==> !has_infix_folded(hay@, lit(#[trigger] needles@[j])),
        decreases needles.len() - i,
    {
        if contains_folded(hay, needles[i].as_bytes()) {
            assert(has_infix_folded(hay@, lit(needles@[i as int])));
            return true;
        }
        i += 1;
    }
    false
}

/// Drop leading spaces and tabs.
pub fn trim_blank_start(value: &[u8]) -> (trimmed: &[u8])
    ensures
        trimmed@ == without_leading_blanks(value@),
{
    let mut i: usize = 0;
    assert(value@.subrange(0, value@.len() as int) =~= value@);
    while i < value.len() && (value[i] == 32 || value[i] == 9)
        invariant
            i <= value.len(),
            without_leading_blanks(value@) == without_leading_blanks(
                value@.subrange(i as int, value@.len() as int),
            ),
        decreases value.len() - i,
    {
        assert(value@.subrange(i as int, value@.len() as int).drop_first() =~= value@.subrange(
            i + 1,
            value@.len() as int,
        ));
        i += 1;
    }
    &value[i..value.len()]
}

/// Drop trailing spaces and tabs.
pub fn trim_blank_end(value: &[u8]) -> (trimmed: &[u8])
    ensures
        trimmed@ == without_trailing_blanks(value@),
{
    let mut end: usize = value.len();
    assert(value@.subrange(0, value@.len() as int) =~= value@);
    while end > 0 && (value[end - 1] == 32 || value[end - 1] == 9)
        invariant
            end <= value.len(),
            without_trailing_blanks(value@) == without_trailing_blanks(
                value@.subrange(0, end as int),
            ),
        decreases end,
    {
        assert(value@.subrange(0, end as int).drop_last() =~= value@.subrange(0, end - 1));
        end -= 1;
    }
    &value[0..end]
}

/// Drop one trailing `\r\n` or `\n`.
pub fn strip_line_ending(value: &[u8]) -> (stripped: &[u8])
    ensures
        stripped@ == without_line_ending(value@),
{
    let len: usize = value.len();
    if len >= 2 && value[len - 2] == 13 && value[len - 1] == 10 {
        &value[0..len - 2]
    } else if len >= 1 && value[len - 1] == 10 {
        assert(value@.drop_last() =~= value@.subrange(0, len - 1));
        &value[0..len - 1]
    } else {
        value
    }
}

/// Append a byte string.
pub fn append(output: &mut Vec<u8>, value: &[u8])
    ensures
        final(output)@ == old(output)@ + value@,
{
    let ghost before = output@;
    output.extend_from_slice(value);
    assert(output@ =~= before + value@);
}

/// Append the UTF-8 bytes of a string.
pub fn append_text(output: &mut Vec<u8>, value: &str)
    ensures
        final(output)@ == old(output)@ + encode_utf8(value@),
{
    append(output, value.as_bytes());
}

/// Append the decimal digits of a number.
pub fn append_decimal(output: &mut Vec<u8>, value: u64)
    ensures
        final(output)@ == old(output)@ + decimal(value as nat),
    decreases value,
{
    let ghost before = output@;
    if value >= 10 {
        append_decimal(output, value / 10);
    }
    let digit: u8 = (value % 10) as u8;
    output.push(48 + digit);
    assert(output@ =~= before + decimal(value as nat));
}

/// Copy a byte string.
pub fn copy(value: &[u8]) -> (duplicate: Vec<u8>)
    ensures
        duplicate@ == value@,
{
    let mut output: Vec<u8> = Vec::new();
    append(&mut output, value);
    assert(output@ =~= value@);
    output
}

/// One part stands somewhere in the whole.
pub open spec fn stands_in(whole: Seq<u8>, part: Seq<u8>) -> bool {
    exists|before: Seq<u8>, after: Seq<u8>| whole == #[trigger] (before + part + after)
}

/// A part stands in itself.
pub proof fn lemma_stands_in_whole(part: Seq<u8>)
    ensures
        stands_in(part, part),
{
    let none = Seq::<u8>::empty();
    assert(part =~= none + part + none);
}

/// What stands in a part stands in the whole.
pub proof fn lemma_stands_in_longer(first: Seq<u8>, whole: Seq<u8>, last: Seq<u8>, part: Seq<u8>)
    requires
        stands_in(whole, part),
    ensures
        stands_in(first + whole + last, part),
        stands_in(first + whole, part),
        stands_in(whole + last, part),
{
    let (before, after) = choose|before: Seq<u8>, after: Seq<u8>|
        whole == #[trigger] (before + part + after);
    assert(first + whole + last =~= (first + before) + part + (after + last));
    assert(first + whole =~= (first + before) + part + after);
    assert(whole + last =~= before + part + (after + last));
}

} // verus!
