//! Text vocabulary: comparison, concatenation and decimal rendering of strings.
use vstd::prelude::*;
use vstd::utf8::*;

verus! {

/// What `std::string::String::push` does: it appends the given character.
pub assume_specification[ String::push ](text: &mut String, c: char)
    ensures
        final(text)@ == old(text)@.push(c),
;

/// The contents of a list of strings.
pub open spec fn texts(values: Seq<String>) -> Seq<Seq<char>> {
    values.map_values(|value: String| value@)
}

/// `text` is one of `choices`.
pub open spec fn one_of(text: Seq<char>, choices: Seq<&str>) -> bool {
    exists|i: int| 0 <= i < choices.len() && #[trigger] choices[i]@ == text
}

/// `text` begins with `prefix`.
pub open spec fn opens_with(text: Seq<char>, prefix: Seq<char>) -> bool {
    prefix.len() <= text.len() && text.subrange(0, prefix.len() as int) == prefix
}

/// `text` ends with `suffix`.
pub open spec fn closes_with(text: Seq<char>, suffix: Seq<char>) -> bool {
    suffix.len() <= text.len() && text.subrange(text.len() - suffix.len(), text.len() as int)
        == suffix
}

/// The decimal digits of `value`, without leading zeros.
pub open spec fn digits(value: nat) -> Seq<char>
    decreases value,
{
    if value < 10 {
        seq![(48 + value) as char]
    } else {
        digits(value / 10).push((48 + value % 10) as char)
    }
}

/// A result whose error text is taken by its contents.
pub open spec fn verdict<T>(result: Result<T, String>) -> Result<T, Seq<char>> {
    match result {
        Ok(value) => Ok(value),
        Err(error) => Err(error@),
    }
}

/// The result is an error exactly where there is a fault, and says what the fault is.
pub open spec fn reports(result: Result<(), String>, fault: Option<Seq<char>>) -> bool {
    match (result, fault) {
        (Ok(_), None) => true,
        (Err(error), Some(message)) => error@ == message,
        _ => false,
    }
}

/// Equal UTF-8 encodings belong to equal texts.
pub proof fn lemma_utf8_injective(left: Seq<char>, right: Seq<char>)
    requires
        encode_utf8(left) == encode_utf8(right),
    ensures
        left == right,
{
    encode_utf8_decode_utf8(left);
    encode_utf8_decode_utf8(right);
}

/// Compare two texts.
pub fn same_text(left: &str, right: &str) -> (same: bool)
    ensures
        same == (left@ == right@),
{
    let same = crate::bytes::same_bytes(left.as_bytes(), right.as_bytes());
    proof {
        if same {
            lemma_utf8_injective(left@, right@);
        }
    }
    same
}

/// Compare two optional texts.
pub fn same_optional(left: &Option<String>, right: &Option<String>) -> (same: bool)
    ensures
        same == match (left, right) {
            (Some(a), Some(b)) => a@ == b@,
            (None, None) => true,
            _ => false,
        },
{
    match (left, right) {
        (Some(a), Some(b)) => same_text(a.as_str(), b.as_str()),
        (None, None) => true,
        _ => false,
    }
}

/// Compare two lists of texts.
pub fn same_texts(left: &[String], right: &[String]) -> (same: bool)
    ensures
        same == (texts(left@) == texts(right@)),
{
    if left.len() != right.len() {
        assert(texts(left@).len() != texts(right@).len());
        return false;
    }
    let mut i: usize = 0;
    while i < left.len()
        invariant
            i <= left.len(),
            left.len() == right.len(),
            forall|j: int| 0 <= j < i ==> left@[j]@ == right@[j]@,
        decreases left.len() - i,
    {
        if !same_text(left[i].as_str(), right[i].as_str()) {
            assert(texts(left@)[i as int] != texts(right@)[i as int]);
            return false;
        }
        i += 1;
    }
    assert(texts(left@) =~= texts(right@));
    true
}

/// Whether `text` is one of `choices`.
pub fn is_one_of(text: &str, choices: &[&str]) -> (found: bool)
    ensures
        found == one_of(text@, choices@),
{
    let mut i: usize = 0;
    while i < choices.len()
        invariant
            i <= choices.len(),
            forall|j: int| 0 <= j < i ==> #[trigger] choices@[j]@ != text@,
        decreases choices.len() - i,
    {
        if same_text(choices[i], text) {
            return true;
        }
        i += 1;
    }
    false
}

/// Whether `text` stands in `values`.
pub fn list_contains(values: &[String], text: &str) -> (found: bool)
    ensures
        found == texts(values@).contains(text@),
{
    let mut i: usize = 0;
    while i < values.len()
        invariant
            i <= values.len(),
            forall|j: int| 0 <= j < i ==> values@[j]@ != text@,
        decreases values.len() - i,
    {
        if same_text(values[i].as_str(), text) {
            assert(texts(values@)[i as int] == text@);
            return true;
        }
        i += 1;
    }
    assert forall|j: int| 0 <= j < texts(values@).len() implies texts(values@)[j] != text@ by {
        assert(texts(values@)[j] == values@[j]@);
    }
    false
}

/// The characters of a text.
pub fn chars(text: &str) -> (characters: Vec<char>)
    ensures
        characters@ == text@,
{
    let mut characters: Vec<char> = Vec::new();
    for c in it: text.chars()
        invariant
            it.seq() == text@,
            characters@ == text@.take(it.index() as int),
    {
        characters.push(c);
    }
    assert(text@.take(text@.len() as int) =~= text@);
    characters
}

/// The text made of some characters.
pub fn from_chars(characters: &[char]) -> (text: String)
    ensures
        text@ == characters@,
{
    let mut text = String::new();
    let mut i: usize = 0;
    while i < characters.len()
        invariant
            i <= characters.len(),
            text@ == characters@.take(i as int),
        decreases characters.len() - i,
    {
        text.push(characters[i]);
        assert(characters@.take(i + 1) =~= characters@.take(i as int).push(characters@[i as int]));
        i += 1;
    }
    assert(characters@.take(characters@.len() as int) =~= characters@);
    text
}

/// Whether `text` begins with `prefix`.
pub fn starts_with(text: &str, prefix: &str) -> (found: bool)
    ensures
        found == opens_with(text@, prefix@),
{
    let hay = chars(text);
    let needle = chars(prefix);
    if needle.len() > hay.len() {
        return false;
    }
    let mut i: usize = 0;
    while i < needle.len()
        invariant
            i <= needle.len() <= hay.len(),
            hay@ == text@,
            needle@ == prefix@,
            forall|j: int| 0 <= j < i ==> hay@[j] == needle@[j],
        decreases needle.len() - i,
    {
        if hay[i] != needle[i] {
            assert(text@.subrange(0, prefix@.len() as int)[i as int] != prefix@[i as int]);
            return false;
        }
        i += 1;
    }
    assert(text@.subrange(0, prefix@.len() as int) =~= prefix@);
    true
}

/// Whether `text` ends with `suffix`.
pub fn ends_with(text: &str, suffix: &str) -> (found: bool)
    ensures
        found == closes_with(text@, suffix@),
{
    let hay = chars(text);
    let needle = chars(suffix);
    if needle.len() > hay.len() {
        return false;
    }
    let offset: usize = hay.len() - needle.len();
    let mut i: usize = 0;
    while i < needle.len()
        invariant
            i <= needle.len(),
            offset + needle.len() == hay.len(),
            hay@ == text@,
            needle@ == suffix@,
            forall|j: int| 0 <= j < i ==> hay@[offset + j] == needle@[j],
        decreases needle.len() - i,
    {
        if hay[offset + i] != needle[i] {
            assert(text@.subrange(text@.len() - suffix@.len(), text@.len() as int)[i as int]
                != suffix@[i as int]);
            return false;
        }
        i += 1;
    }
    assert(text@.subrange(text@.len() - suffix@.len(), text@.len() as int) =~= suffix@);
    true
}

/// The characters of `text` from `from` up to `to`.
pub fn slice(text: &str, from: usize, to: usize) -> (part: String)
    requires
        from <= to <= text@.len(),
    ensures
        part@ == text@.subrange(from as int, to as int),
{
    let characters = chars(text);
    from_chars(&characters.as_slice()[from..to])
}

/// Two texts in sequence.
pub fn join2(a: &str, b: &str) -> (text: String)
    ensures
        text@ == a@ + b@,
{
    let mut text = a.to_owned();
    text.append(b);
    text
}

/// Three texts in sequence.
pub fn join3(a: &str, b: &str, c: &str) -> (text: String)
    ensures
        text@ == a@ + b@ + c@,
{
    let mut text = join2(a, b);
    text.append(c);
    text
}

/// Four texts in sequence.
pub fn join4(a: &str, b: &str, c: &str, d: &str) -> (text: String)
    ensures
        text@ == a@ + b@ + c@ + d@,
{
    let mut text = join3(a, b, c);
    text.append(d);
    text
}

/// Five texts in sequence.
pub fn join5(a: &str, b: &str, c: &str, d: &str, e: &str) -> (text: String)
    ensures
        text@ == a@ + b@ + c@ + d@ + e@,
{
    let mut text = join4(a, b, c, d);
    text.append(e);
    text
}

fn push_digits(text: &mut String, value: u64)
    ensures
        final(text)@ == old(text)@ + digits(value as nat),
    decreases value,
{
    let ghost before = text@;
    if value >= 10 {
        push_digits(text, value / 10);
    }
    let digit: u8 = (value % 10) as u8;
    text.push((48 + digit) as char);
    assert(text@ =~= before + digits(value as nat));
}

/// The decimal digits of a number.
pub fn decimal(value: u64) -> (text: String)
    ensures
        text@ == digits(value as nat),
{
    let mut text = String::new();
    push_digits(&mut text, value);
    assert(text@ =~= digits(value as nat));
    text
}

/// The decimal digits of `value`, after a minus sign where it is negative.
pub open spec fn signed_digits(value: int) -> Seq<char> {
    if value < 0 {
        seq!['-'] + digits((-value) as nat)
    } else {
        digits(value as nat)
    }
}

/// The decimal digits of a number that may be negative.
pub fn signed_decimal(value: i64) -> (text: String)
    ensures
        text@ == signed_digits(value as int),
{
    if value >= 0 {
        return decimal(value as u64);
    }
    let magnitude: u64 = if value == i64::MIN {
        9_223_372_036_854_775_808
    } else {
        (-value) as u64
    };
    let mut text = String::new();
    text.push('-');
    push_digits(&mut text, magnitude);
    assert(text@ =~= signed_digits(value as int));
    text
}

/// The octal digits of `value`, without leading zeros.
pub open spec fn octal_digits(value: nat) -> Seq<char>
    decreases value,
{
    if value < 8 {
        seq![(48 + value) as char]
    } else {
        octal_digits(value / 8).push((48 + value % 8) as char)
    }
}

fn push_octal(text: &mut String, value: u32)
    ensures
        final(text)@ == old(text)@ + octal_digits(value as nat),
    decreases value,
{
    let ghost before = text@;
    if value >= 8 {
        push_octal(text, value / 8);
    }
    let digit: u8 = (value % 8) as u8;
    text.push((48 + digit) as char);
    assert(text@ =~= before + octal_digits(value as nat));
}

/// The octal digits of a number.
pub fn octal(value: u32) -> (text: String)
    ensures
        text@ == octal_digits(value as nat),
{
    let mut text = String::new();
    push_octal(&mut text, value);
    assert(text@ =~= octal_digits(value as nat));
    text
}

/// An ASCII decimal digit.
pub open spec fn is_digit(c: char) -> bool {
    '0' <= c <= '9'
}

/// The number that some decimal digits write.
pub open spec fn number(text: Seq<char>) -> nat
    decreases text.len(),
{
    if text.len() == 0 {
        0
    } else {
        number(text.drop_last()) * 10 + (text.last() as nat - 48) as nat
    }
}

/// Every character is a decimal digit.
pub open spec fn all_digits(text: Seq<char>) -> bool {
    forall|i: int| 0 <= i < text.len() ==> is_digit(#[trigger] text[i])
}

/// Decimal digits without a needless leading zero.
pub open spec fn is_canonical_number(text: Seq<char>) -> bool {
    text.len() > 0 && all_digits(text) && (text.len() == 1 || text[0] != '0')
}

/// Writing a number in decimal and reading it gives the number back.
pub proof fn lemma_digits_round_trip(value: nat)
    ensures
        number(digits(value)) == value,
        is_canonical_number(digits(value)),
        value > 0 ==> digits(value)[0] != '0',
    decreases value,
{
    if value < 10 {
        let text = digits(value);
        assert(text.drop_last() =~= Seq::empty());
        assert(number(text.drop_last()) == 0);
    } else {
        lemma_digits_round_trip(value / 10);
        let text = digits(value);
        assert(text.drop_last() =~= digits(value / 10));
    }
}

/// Reading a number and writing it in decimal gives the text back, where it has no needless zero.
pub proof fn lemma_number_round_trip(text: Seq<char>)
    requires
        is_canonical_number(text),
    ensures
        digits(number(text)) == text,
        text[0] != '0' ==> number(text) > 0,
    decreases text.len(),
{
    let rest = text.drop_last();
    assert(is_digit(text.last()));
    if text.len() == 1 {
        assert(rest =~= Seq::empty());
        assert(number(rest) == 0);
        assert(digits(number(text)) =~= text);
    } else {
        assert(rest[0] == text[0]);
        assert forall|i: int| 0 <= i < rest.len() implies is_digit(#[trigger] rest[i]) by {
            assert(is_digit(text[i]));
        }
        lemma_number_round_trip(rest);
        assert(digits(number(text)) =~= text);
    }
}

proof fn lemma_number_grows(text: Seq<char>, count: int)
    requires
        0 <= count <= text.len(),
    ensures
        number(text.take(count)) <= number(text),
    decreases text.len() - count,
{
    if count == text.len() {
        assert(text.take(count) =~= text);
    } else {
        lemma_number_grows(text, count + 1);
        assert(text.take(count + 1).drop_last() =~= text.take(count));
    }
}

/// Whether the text is a number without a needless leading zero.
pub fn canonical_number(text: &str) -> (found: bool)
    ensures
        found == is_canonical_number(text@),
{
    let characters = chars(text);
    if characters.len() == 0 || (characters.len() > 1 && characters[0] == '0') {
        return false;
    }
    let mut i: usize = 0;
    while i < characters.len()
        invariant
            i <= characters.len(),
            characters@ == text@,
            forall|j: int| 0 <= j < i ==> is_digit(#[trigger] text@[j]),
        decreases characters.len() - i,
    {
        if characters[i] < '0' || characters[i] > '9' {
            assert(!is_digit(text@[i as int]));
            return false;
        }
        i += 1;
    }
    true
}

/// Read a decimal number; `None` if it does not fit.
pub fn parse_number(text: &str) -> (value: Option<u64>)
    requires
        all_digits(text@),
    ensures
        value is None <==> number(text@) > u64::MAX,
        value matches Some(parsed) ==> parsed == number(text@),
{
    let characters = chars(text);
    let mut value: u64 = 0;
    let mut i: usize = 0;
    assert(number(text@.take(0)) == 0);
    while i < characters.len()
        invariant
            i <= characters.len(),
            characters@ == text@,
            all_digits(text@),
            value == number(text@.take(i as int)),
        decreases characters.len() - i,
    {
        assert(is_digit(text@[i as int]));
        let digit: u64 = characters[i] as u64 - 48;
        proof {
            assert(text@.take(i + 1).drop_last() =~= text@.take(i as int));
            lemma_number_grows(text@, i + 1);
        }
        if value > 1_844_674_407_370_955_161 || value * 10 > u64::MAX - digit {
            return None;
        }
        value = value * 10 + digit;
        i += 1;
    }
    assert(text@.take(text@.len() as int) =~= text@);
    Some(value)
}

/// The UTF-8 encoding of two texts in sequence.
pub proof fn lemma_utf8_concat(first: Seq<char>, second: Seq<char>)
    ensures
        encode_utf8(first + second) == encode_utf8(first) + encode_utf8(second),
    decreases first.len(),
{
    if first.len() == 0 {
        assert(first + second =~= second);
        assert(encode_utf8(first) =~= Seq::empty());
        assert(encode_utf8(first) + encode_utf8(second) =~= encode_utf8(second));
    } else {
        lemma_utf8_concat(first.drop_first(), second);
        assert((first + second).drop_first() =~= first.drop_first() + second);
        assert((first + second)[0] == first[0]);
        assert(encode_utf8(first + second) =~= encode_utf8(first) + encode_utf8(second));
    }
}

/// The characters U+0000 to U+001F and U+007F to U+009F.
pub open spec fn is_control(c: char) -> bool {
    c as u32 <= 0x1f || 0x7f <= c as u32 <= 0x9f
}

/// Whether the character is a control character.
pub fn control(c: char) -> (found: bool)
    ensures
        found == is_control(c),
{
    let code: u32 = c as u32;
    code <= 0x1f || (0x7f <= code && code <= 0x9f)
}

/// The lower-case hexadecimal digit of a number below sixteen.
pub open spec fn hex_digit(value: int) -> char {
    if value < 10 {
        (48 + value) as char
    } else {
        (87 + value) as char
    }
}

/// Write a number below sixteen as a lower-case hexadecimal digit.
pub fn to_hex_digit(value: u8) -> (c: char)
    requires
        value < 16,
    ensures
        c == hex_digit(value as int),
{
    if value < 10 {
        (48 + value) as char
    } else {
        (87 + value) as char
    }
}

/// How Rust's `Debug` writes a text.
pub uninterp spec fn debug_form(text: Seq<char>) -> Seq<char>;

/// Calls the `Debug` implementation of `str`: the text in double quotes, with escapes. The
/// contract only says that the result depends on the text alone.
#[verifier::external_body]
pub(crate) fn quoted(text: &str) -> (result: String)
    ensures
        result@ == debug_form(text@),
{
    format!("{text:?}")
}

/// Calls `std::string::String::from_utf8`, which accepts exactly the valid UTF-8 byte strings
/// and decodes them.
#[verifier::external_body]
pub(crate) fn decode(bytes: &[u8]) -> (text: Option<String>)
    ensures
        text is Some <==> valid_utf8(bytes@),
        text matches Some(decoded) ==> encode_utf8(decoded@) == bytes@,
{
    String::from_utf8(bytes.to_vec()).ok()
}

} // verus!
