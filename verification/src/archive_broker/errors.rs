//! What a client is told about a request that failed.
use vstd::prelude::*;

use crate::text::{chars, control, from_chars, is_control, texts};

verus! {

/// How many characters of an error a client is told at most.
pub const MAX_ERROR_CHARS: usize = 1_024;

/// A text with every occurrence of a value replaced, from left to right.
pub open spec fn replaced(text: Seq<char>, value: Seq<char>) -> Seq<char>
    decreases text.len(),
{
    if value.len() == 0 || text.len() < value.len() {
        text
    } else if text.take(value.len() as int) == value {
        "<source>"@ + replaced(text.skip(value.len() as int), value)
    } else {
        seq![text[0]] + replaced(text.drop_first(), value)
    }
}

/// A text with the first `count` values replaced one after the other.
pub open spec fn redacted(text: Seq<char>, values: Seq<Seq<char>>, count: nat) -> Seq<char>
    decreases count,
{
    if count == 0 {
        text
    } else {
        replaced(redacted(text, values, (count - 1) as nat), values[count - 1])
    }
}

/// A character that can be shown in one line.
pub open spec fn visible(c: char) -> char {
    if is_control(c) {
        ' '
    } else {
        c
    }
}

/// The beginning of a text, in one line.
pub open spec fn shortened(text: Seq<char>) -> Seq<char> {
    let line = text.map_values(|c: char| visible(c));
    if line.len() > MAX_ERROR_CHARS {
        line.take(MAX_ERROR_CHARS as int)
    } else {
        line
    }
}

/// What a client is told about an error.
pub open spec fn safe_error(error: Seq<char>, redactions: Seq<Seq<char>>) -> Seq<char> {
    shortened(redacted(error, redactions, redactions.len()))
}

/// Whether the characters at `at` are those of a value.
fn stands_at(text: &Vec<char>, value: &Vec<char>, at: usize) -> (found: bool)
    requires
        at + value@.len() <= text@.len(),
    ensures
        found == (text@.skip(at as int).take(value@.len() as int) == value@),
{
    let ghost part = text@.skip(at as int).take(value@.len() as int);
    let mut i: usize = 0;
    while i < value.len()
        invariant
            i <= value.len(),
            at + value@.len() <= text@.len(),
            part == text@.skip(at as int).take(value@.len() as int),
            forall|j: int| 0 <= j < i ==> #[trigger] part[j] == value@[j],
        decreases value.len() - i,
    {
        assert(part[i as int] == text@[at + i]);
        assert(at + i < text.len());
        if text[at + i] != value[i] {
            return false;
        }
        i += 1;
    }
    assert(part =~= value@);
    true
}

fn replace(text: &Vec<char>, value: &str) -> (result: Vec<char>)
    ensures
        result@ == replaced(text@, value@),
{
    let pattern = chars(value);
    let mark = chars("<source>");
    let mut result: Vec<char> = Vec::new();
    if pattern.len() == 0 {
        assert(text@.subrange(0, text@.len() as int) =~= text@);
        let mut copy: Vec<char> = Vec::new();
        let mut k: usize = 0;
        while k < text.len()
            invariant
                k <= text.len(),
                copy@ =~= text@.take(k as int),
            decreases text.len() - k,
        {
            copy.push(text[k]);
            k += 1;
        }
        assert(text@.take(text@.len() as int) =~= text@);
        return copy;
    }
    let mut i: usize = 0;
    assert(text@.skip(0) =~= text@);
    assert(result@ + replaced(text@.skip(0), value@) =~= replaced(text@, value@));
    while text.len() - i >= pattern.len()
        invariant
            i <= text.len(),
            pattern@ == value@,
            pattern@.len() > 0,
            mark@ == "<source>"@,
            result@ + replaced(text@.skip(i as int), value@) == replaced(text@, value@),
        decreases text.len() - i,
    {
        let ghost rest = text@.skip(i as int);
        let ghost before = result@;
        if stands_at(text, &pattern, i) {
            let mut k: usize = 0;
            while k < mark.len()
                invariant
                    k <= mark.len(),
                    result@ =~= before + mark@.take(k as int),
                decreases mark.len() - k,
            {
                result.push(mark[k]);
                k += 1;
            }
            proof {
                assert(mark@.take(mark@.len() as int) =~= mark@);
                assert(rest.skip(value@.len() as int) =~= text@.skip(i + value@.len()));
                assert(result@ + replaced(text@.skip(i + value@.len()), value@) =~= before
                    + replaced(rest, value@));
            }
            i += pattern.len();
        } else {
            result.push(text[i]);
            proof {
                assert(rest.drop_first() =~= text@.skip(i + 1));
                assert(result@ + replaced(text@.skip(i + 1), value@) =~= before + replaced(
                    rest,
                    value@,
                ));
            }
            i += 1;
        }
    }
    let ghost rest = text@.skip(i as int);
    let ghost before = result@;
    let ghost start = i as int;
    while i < text.len()
        invariant
            0 <= start <= i <= text.len(),
            rest == text@.skip(start),
            result@ == before + rest.take(i - start),
        decreases text.len() - i,
    {
        result.push(text[i]);
        assert(rest.take(i - start + 1) =~= rest.take(i - start).push(text@[i as int]));
        assert(result@ =~= before + rest.take(i - start + 1));
        i += 1;
    }
    assert(rest.take(rest.len() as int) =~= rest);
    result
}

/// What a client is told about an error: without the names of its call, in one short line.
pub fn safe_request_error(error: &str, redactions: &[String]) -> (safe: String)
    ensures
        safe@ == safe_error(error@, texts(redactions@)),
{
    let ghost values = texts(redactions@);
    let mut text = chars(error);
    let mut i: usize = 0;
    while i < redactions.len()
        invariant
            i <= redactions.len(),
            values == texts(redactions@),
            text@ == redacted(error@, values, i as nat),
        decreases redactions.len() - i,
    {
        assert(values[i as int] == redactions@[i as int]@);
        text = replace(&text, redactions[i].as_str());
        i += 1;
    }
    let ghost whole = text@;
    let ghost line = whole.map_values(|c: char| visible(c));
    let end: usize = if text.len() > MAX_ERROR_CHARS {
        MAX_ERROR_CHARS
    } else {
        text.len()
    };
    let mut shown: Vec<char> = Vec::new();
    let mut k: usize = 0;
    while k < end
        invariant
            k <= end <= text@.len(),
            whole == text@,
            line == whole.map_values(|c: char| visible(c)),
            shown@ =~= line.take(k as int),
        decreases end - k,
    {
        if control(text[k]) {
            shown.push(' ');
        } else {
            shown.push(text[k]);
        }
        k += 1;
    }
    assert(line.take(line.len() as int) =~= line);
    from_chars(shown.as_slice())
}

/// A value stands in a text at a position.
pub open spec fn stands(text: Seq<char>, value: Seq<char>, at: int) -> bool {
    0 <= at && at + value.len() <= text.len() && text.subrange(at, at + value.len()) == value
}

/// A value stands somewhere in a text.
pub open spec fn tells(text: Seq<char>, value: Seq<char>) -> bool {
    exists|at: int| #[trigger] stands(text, value, at)
}

/// A value that what it is replaced by cannot give away.
pub open spec fn is_hideable(value: Seq<char>) -> bool {
    &&& value.len() > 0
    &&& !value.contains('<')
    &&& !value.contains('>')
    &&& !value.contains(' ')
    &&& !tells("source"@, value)
}

proof fn lemma_stands_at(text: Seq<char>, value: Seq<char>, at: int, i: int)
    requires
        stands(text, value, at),
        0 <= i < value.len(),
    ensures
        text[at + i] == value[i],
{
    assert(text.subrange(at, at + value.len())[i] == value[i]);
}

/// What opens a text after a replacement opened it before, unless it shows the mark.
proof fn lemma_prefix_of_replaced(text: Seq<char>, value: Seq<char>, prefix: Seq<char>)
    requires
        prefix.len() <= replaced(text, value).len(),
        replaced(text, value).take(prefix.len() as int) == prefix,
        !prefix.contains('<'),
    ensures
        prefix.len() <= text.len(),
        text.take(prefix.len() as int) == prefix,
    decreases text.len(),
{
    let result = replaced(text, value);
    if value.len() == 0 || text.len() < value.len() {
    } else if text.take(value.len() as int) == value {
        reveal_strlit("<source>");
        if prefix.len() > 0 {
            assert(result[0] == '<');
            assert(prefix[0] == result[0]);
            assert(prefix.contains('<'));
        }
        assert(text.take(0) =~= prefix);
    } else if prefix.len() > 0 {
        let rest = replaced(text.drop_first(), value);
        let more = prefix.drop_first();
        assert(rest.take(more.len() as int) =~= more) by {
            assert forall|i: int| 0 <= i < more.len() implies rest[i] == more[i] by {
                assert(result[i + 1] == rest[i]);
                assert(result.take(prefix.len() as int)[i + 1] == prefix[i + 1]);
            }
        }
        assert(!more.contains('<')) by {
            if more.contains('<') {
                let i = more.index_of('<');
                assert(prefix[i + 1] == '<');
            }
        }
        lemma_prefix_of_replaced(text.drop_first(), value, more);
        assert(result.take(prefix.len() as int)[0] == prefix[0]);
        assert(text.take(prefix.len() as int) =~= prefix) by {
            assert forall|i: int| 0 <= i < prefix.len() implies text[i] == prefix[i] by {
                if i > 0 {
                    assert(text.drop_first().take(more.len() as int)[i - 1] == more[i - 1]);
                }
            }
        }
    } else {
        assert(text.take(0) =~= prefix);
    }
}

/// A replacement shows no value that was not there before, and not the value that it replaces.
proof fn lemma_replacement_tells_nothing(
    text: Seq<char>,
    value: Seq<char>,
    hidden: Seq<char>,
    at: int,
)
    requires
        is_hideable(hidden),
        stands(replaced(text, value), hidden, at),
    ensures
        tells(text, hidden),
        hidden != value,
    decreases text.len(),
{
    let result = replaced(text, value);
    if value.len() == 0 || text.len() < value.len() {
        assert(stands(text, hidden, at));
    } else if text.take(value.len() as int) == value {
        let rest = replaced(text.skip(value.len() as int), value);
        reveal_strlit("<source>");
        reveal_strlit("source");
        let mark = "<source>"@;
        assert(mark.len() == 8);
        if at < 8 {
            if at == 0 {
                lemma_stands_at(result, hidden, at, 0);
                assert(hidden[0] == '<');
                assert(hidden.contains('<'));
            } else if at + hidden.len() > 7 {
                lemma_stands_at(result, hidden, at, 7 - at);
                assert(result[7] == '>');
                assert(hidden[7 - at] == '>');
                assert(hidden.contains('>'));
            } else {
                assert("source"@.subrange(at - 1, at - 1 + hidden.len()) =~= hidden) by {
                    assert forall|i: int| 0 <= i < hidden.len() implies "source"@[at - 1 + i]
                        == hidden[i] by {
                        lemma_stands_at(result, hidden, at, i);
                        assert(result[at + i] == mark[at + i]);
                    }
                }
                assert(stands("source"@, hidden, at - 1));
            }
            assert(false);
        }
        assert(rest.subrange(at - 8, at - 8 + hidden.len()) =~= hidden) by {
            assert forall|i: int| 0 <= i < hidden.len() implies rest[at - 8 + i] == hidden[i] by {
                lemma_stands_at(result, hidden, at, i);
            }
        }
        assert(stands(rest, hidden, at - 8));
        lemma_replacement_tells_nothing(text.skip(value.len() as int), value, hidden, at - 8);
        let k = choose|k: int| #[trigger] stands(text.skip(value.len() as int), hidden, k);
        assert(text.subrange(k + value.len(), k + value.len() + hidden.len()) =~= hidden) by {
            assert forall|i: int| 0 <= i < hidden.len() implies text[k + value.len() + i]
                == hidden[i] by {
                lemma_stands_at(text.skip(value.len() as int), hidden, k, i);
            }
        }
        assert(stands(text, hidden, k + value.len()));
    } else {
        let rest = replaced(text.drop_first(), value);
        if at == 0 {
            assert(result.take(hidden.len() as int) =~= hidden) by {
                assert(result.subrange(0, hidden.len() as int) == hidden);
            }
            lemma_prefix_of_replaced(text, value, hidden);
            assert(text.subrange(0, hidden.len() as int) =~= hidden);
            assert(stands(text, hidden, 0));
        } else {
            assert(rest.subrange(at - 1, at - 1 + hidden.len()) =~= hidden) by {
                assert forall|i: int| 0 <= i < hidden.len() implies rest[at - 1 + i]
                    == hidden[i] by {
                    lemma_stands_at(result, hidden, at, i);
                }
            }
            assert(stands(rest, hidden, at - 1));
            lemma_replacement_tells_nothing(text.drop_first(), value, hidden, at - 1);
            let k = choose|k: int| #[trigger] stands(text.drop_first(), hidden, k);
            assert(text.subrange(k + 1, k + 1 + hidden.len()) =~= hidden) by {
                assert forall|i: int| 0 <= i < hidden.len() implies text[k + 1 + i]
                    == hidden[i] by {
                    lemma_stands_at(text.drop_first(), hidden, k, i);
                }
            }
            assert(stands(text, hidden, k + 1));
        }
    }
}

proof fn lemma_redacted(text: Seq<char>, values: Seq<Seq<char>>, count: nat, index: int)
    requires
        0 <= index < count <= values.len(),
        is_hideable(values[index]),
    ensures
        !tells(redacted(text, values, count), values[index]),
    decreases count,
{
    let hidden = values[index];
    let before = redacted(text, values, (count - 1) as nat);
    if index < count - 1 {
        lemma_redacted(text, values, (count - 1) as nat, index);
    }
    if tells(redacted(text, values, count), hidden) {
        let at = choose|at: int| #[trigger] stands(redacted(text, values, count), hidden, at);
        lemma_replacement_tells_nothing(before, values[count - 1], hidden, at);
    }
}

/// What a client is told is one line of bounded length, and it does not tell the names of the
/// call, as long as these hold no space and nothing of the mark that replaces them.
pub proof fn lemma_safe_error(error: Seq<char>, redactions: Seq<Seq<char>>, index: int)
    requires
        0 <= index < redactions.len(),
        is_hideable(redactions[index]),
    ensures
        safe_error(error, redactions).len() <= MAX_ERROR_CHARS,
        forall|i: int|
            0 <= i < safe_error(error, redactions).len() ==> !is_control(
                #[trigger] safe_error(error, redactions)[i],
            ),
        !tells(safe_error(error, redactions), redactions[index]),
{
    let hidden = redactions[index];
    let text = redacted(error, redactions, redactions.len());
    let shown = safe_error(error, redactions);
    lemma_redacted(error, redactions, redactions.len(), index);
    assert forall|i: int| 0 <= i < shown.len() implies !is_control(#[trigger] shown[i]) by {
        assert(shown[i] == visible(text[i]));
    }
    if tells(shown, hidden) {
        let at = choose|at: int| #[trigger] stands(shown, hidden, at);
        assert(text.subrange(at, at + hidden.len()) =~= hidden) by {
            assert forall|i: int| 0 <= i < hidden.len() implies text[at + i] == hidden[i] by {
                lemma_stands_at(shown, hidden, at, i);
                assert(shown[at + i] == visible(text[at + i]));
                if is_control(text[at + i]) {
                    assert(hidden[i] == ' ');
                    assert(hidden.contains(' '));
                }
            }
        }
        assert(stands(text, hidden, at));
    }
}

} // verus!
