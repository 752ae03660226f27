//! The order of texts by their bytes.
use vstd::prelude::*;
use vstd::utf8::encode_utf8;

use crate::text::{lemma_utf8_injective, texts};

verus! {

/// A byte string stands before another one.
pub open spec fn precedes(left: Seq<u8>, right: Seq<u8>) -> bool
    decreases left.len(),
{
    if right.len() == 0 {
        false
    } else if left.len() == 0 {
        true
    } else if left[0] != right[0] {
        left[0] < right[0]
    } else {
        precedes(left.drop_first(), right.drop_first())
    }
}

/// A text stands before another one.
pub open spec fn comes_before(left: Seq<char>, right: Seq<char>) -> bool {
    precedes(encode_utf8(left), encode_utf8(right))
}

/// A text does not stand after another one.
pub open spec fn at_most(left: Seq<char>, right: Seq<char>) -> bool {
    !comes_before(right, left)
}

/// Each text stands before those that follow it.
pub open spec fn strictly_ascending(values: Seq<Seq<char>>) -> bool {
    forall|i: int, j: int|
        0 <= i < j < values.len() ==> comes_before(#[trigger] values[i], #[trigger] values[j])
}

/// Two lists hold the same texts.
pub open spec fn same_members(left: Seq<Seq<char>>, right: Seq<Seq<char>>) -> bool {
    forall|value: Seq<char>| left.contains(value) <==> #[trigger] right.contains(value)
}

/// The texts of a list in ascending order, each of them once.
pub open spec fn ordered_set(values: Seq<Seq<char>>) -> Seq<Seq<char>> {
    choose|ordered: Seq<Seq<char>>|
        #![trigger strictly_ascending(ordered)]
        strictly_ascending(ordered) && same_members(ordered, values)
}

/// The texts of a list in ascending order.
pub open spec fn sorted(values: Seq<Seq<char>>) -> Seq<Seq<char>> {
    values.sort_by(|left: Seq<char>, right: Seq<char>| at_most(left, right))
}

proof fn lemma_bytes_irreflexive(value: Seq<u8>)
    ensures
        !precedes(value, value),
    decreases value.len(),
{
    if value.len() > 0 {
        lemma_bytes_irreflexive(value.drop_first());
    }
}

proof fn lemma_bytes_transitive(first: Seq<u8>, second: Seq<u8>, third: Seq<u8>)
    requires
        precedes(first, second),
        precedes(second, third),
    ensures
        precedes(first, third),
    decreases first.len(),
{
    if first.len() > 0 && second.len() > 0 && first[0] == second[0] && second[0] == third[0] {
        lemma_bytes_transitive(first.drop_first(), second.drop_first(), third.drop_first());
    }
}

proof fn lemma_bytes_total(left: Seq<u8>, right: Seq<u8>)
    ensures
        left == right || precedes(left, right) || precedes(right, left),
    decreases left.len(),
{
    if left.len() > 0 && right.len() > 0 && left[0] == right[0] {
        lemma_bytes_total(left.drop_first(), right.drop_first());
        if left.drop_first() == right.drop_first() {
            assert(left =~= seq![left[0]] + left.drop_first());
            assert(right =~= seq![right[0]] + right.drop_first());
        }
    } else if left.len() == 0 && right.len() == 0 {
        assert(left =~= right);
    }
}

/// No text stands before itself.
pub proof fn lemma_irreflexive(value: Seq<char>)
    ensures
        !comes_before(value, value),
{
    lemma_bytes_irreflexive(encode_utf8(value));
}

/// A text stands before whatever a later text stands before.
pub proof fn lemma_transitive(first: Seq<char>, second: Seq<char>, third: Seq<char>)
    requires
        comes_before(first, second),
        comes_before(second, third),
    ensures
        comes_before(first, third),
{
    lemma_bytes_transitive(encode_utf8(first), encode_utf8(second), encode_utf8(third));
}

/// Of two different texts one stands before the other.
pub proof fn lemma_total(left: Seq<char>, right: Seq<char>)
    ensures
        left == right || comes_before(left, right) || comes_before(right, left),
{
    lemma_bytes_total(encode_utf8(left), encode_utf8(right));
    if encode_utf8(left) == encode_utf8(right) {
        lemma_utf8_injective(left, right);
    }
}

proof fn lemma_at_most_orders()
    ensures
        vstd::relations::total_ordering(
            |left: Seq<char>, right: Seq<char>| at_most(left, right),
        ),
{
    let order = |left: Seq<char>, right: Seq<char>| at_most(left, right);
    assert forall|x: Seq<char>| #[trigger] order(x, x) by {
        lemma_irreflexive(x);
    }
    assert forall|x: Seq<char>, y: Seq<char>| #[trigger]
        order(x, y) && #[trigger] order(y, x) implies x == y by {
        lemma_total(x, y);
    }
    assert forall|x: Seq<char>, y: Seq<char>, z: Seq<char>| #[trigger]
        order(x, y) && #[trigger] order(y, z) implies order(x, z) by {
        if comes_before(z, x) {
            lemma_total(x, y);
            if comes_before(x, y) {
                lemma_transitive(z, x, y);
            }
        }
    }
    assert forall|x: Seq<char>, y: Seq<char>| #[trigger] order(x, y) || #[trigger] order(y, x) by {
        if comes_before(x, y) && comes_before(y, x) {
            lemma_transitive(x, y, x);
            lemma_irreflexive(x);
        }
    }
}

/// At most one list in strictly ascending order holds given texts.
pub proof fn lemma_ascending_unique(left: Seq<Seq<char>>, right: Seq<Seq<char>>)
    requires
        strictly_ascending(left),
        strictly_ascending(right),
        same_members(left, right),
    ensures
        left == right,
    decreases left.len(),
{
    if left.len() == 0 {
        if right.len() > 0 {
            assert(right.contains(right[0]));
            assert(left.contains(right[0]));
        }
        assert(left =~= right);
    } else if right.len() == 0 {
        assert(left.contains(left[0]));
        assert(right.contains(left[0]));
    } else {
        lemma_last_is_greatest(left, right);
        lemma_last_is_greatest(right, left);
        if left.last() != right.last() {
            lemma_transitive(left.last(), right.last(), left.last());
            lemma_irreflexive(left.last());
        }
        let front = left.drop_last();
        let rest = right.drop_last();
        assert forall|value: Seq<char>| front.contains(value) <==> #[trigger] rest.contains(
            value,
        ) by {
            if front.contains(value) {
                let i = front.index_of(value);
                assert(left[i] == value);
                assert(left.contains(value));
                assert(right.contains(value));
                let j = right.index_of(value);
                lemma_irreflexive(value);
                assert(comes_before(left[i], left[left.len() - 1]));
                assert(j < right.len() - 1);
                assert(rest[j] == value);
            }
            if rest.contains(value) {
                let i = rest.index_of(value);
                assert(right[i] == value);
                assert(right.contains(value));
                assert(left.contains(value));
                let j = left.index_of(value);
                lemma_irreflexive(value);
                assert(comes_before(right[i], right[right.len() - 1]));
                assert(j < left.len() - 1);
                assert(front[j] == value);
            }
        }
        assert(strictly_ascending(front)) by {
            assert forall|i: int, j: int| 0 <= i < j < front.len() implies comes_before(
                #[trigger] front[i],
                #[trigger] front[j],
            ) by {
                assert(comes_before(left[i], left[j]));
            }
        }
        assert(strictly_ascending(rest)) by {
            assert forall|i: int, j: int| 0 <= i < j < rest.len() implies comes_before(
                #[trigger] rest[i],
                #[trigger] rest[j],
            ) by {
                assert(comes_before(right[i], right[j]));
            }
        }
        lemma_ascending_unique(front, rest);
        assert(left =~= front.push(left.last()));
        assert(right =~= rest.push(right.last()));
    }
}

proof fn lemma_last_is_greatest(left: Seq<Seq<char>>, right: Seq<Seq<char>>)
    requires
        left.len() > 0,
        right.len() > 0,
        strictly_ascending(right),
        same_members(left, right),
    ensures
        left.last() == right.last() || comes_before(left.last(), right.last()),
{
    assert(left.contains(left[left.len() - 1]));
    assert(right.contains(left.last()));
    let i = right.index_of(left.last());
    if i < right.len() - 1 {
        assert(comes_before(right[i], right[right.len() - 1]));
    }
}

/// Whether a byte string stands before another one.
pub fn bytes_before(left: &[u8], right: &[u8]) -> (found: bool)
    ensures
        found == precedes(left@, right@),
{
    let mut i: usize = 0;
    assert(left@.skip(0) =~= left@);
    assert(right@.skip(0) =~= right@);
    while i < left.len() && i < right.len()
        invariant
            i <= left.len(),
            i <= right.len(),
            precedes(left@, right@) == precedes(left@.skip(i as int), right@.skip(i as int)),
        decreases left.len() - i,
    {
        assert(left@.skip(i as int).drop_first() =~= left@.skip(i + 1));
        assert(right@.skip(i as int).drop_first() =~= right@.skip(i + 1));
        if left[i] != right[i] {
            return left[i] < right[i];
        }
        i += 1;
    }
    i < right.len()
}

/// Whether a text stands before another one.
pub fn is_before(left: &str, right: &str) -> (found: bool)
    ensures
        found == comes_before(left@, right@),
{
    bytes_before(left.as_bytes(), right.as_bytes())
}

/// Add a text to a strictly ascending list.
pub fn insert_ordered(values: &mut Vec<String>, value: String)
    requires
        strictly_ascending(texts(old(values)@)),
    ensures
        strictly_ascending(texts(final(values)@)),
        forall|text: Seq<char>| #[trigger]
            texts(final(values)@).contains(text) <==> texts(old(values)@).contains(text) || text
                == value@,
{
    let ghost before = texts(values@);
    let mut i: usize = 0;
    while i < values.len() && is_before(values[i].as_str(), value.as_str())
        invariant
            i <= values.len(),
            texts(values@) == before,
            forall|j: int| 0 <= j < i ==> comes_before(#[trigger] before[j], value@),
        decreases values.len() - i,
    {
        assert(before[i as int] == values@[i as int]@);
        i += 1;
    }
    if i < values.len() && crate::text::same_text(values[i].as_str(), value.as_str()) {
        assert(before[i as int] == values@[i as int]@);
        assert(before.contains(value@));
        return;
    }
    let ghost text = value@;
    proof {
        if i < values@.len() {
            assert(before[i as int] == values@[i as int]@);
            lemma_total(before[i as int], text);
        }
    }
    values.insert(i, value);
    proof {
        let after = texts(values@);
        assert(after =~= before.insert(i as int, text));
        assert forall|a: int, b: int| 0 <= a < b < after.len() implies comes_before(
            #[trigger] after[a],
            #[trigger] after[b],
        ) by {
            if a > i {
                assert(comes_before(before[a - 1], before[b - 1]));
            } else if a == i {
                if b - 1 > i {
                    assert(comes_before(before[i as int], before[b - 1]));
                    lemma_transitive(text, before[i as int], before[b - 1]);
                }
            } else if b < i {
                assert(comes_before(before[a], before[b]));
            } else if b > i {
                assert(comes_before(before[a], before[b - 1]));
            }
        }
        assert forall|other: Seq<char>| #[trigger]
            after.contains(other) <==> before.contains(other) || other == text by {
            if after.contains(other) {
                let k = after.index_of(other);
                if k < i {
                    assert(before[k] == other);
                } else if k > i {
                    assert(before[k - 1] == other);
                }
            }
            if before.contains(other) {
                let k = before.index_of(other);
                if k < i {
                    assert(after[k] == other);
                } else {
                    assert(after[k + 1] == other);
                }
            }
            if other == text {
                assert(after[i as int] == other);
            }
        }
    }
}

/// The texts of a list in ascending order, each of them once.
pub fn ordered(values: &Vec<String>) -> (result: Vec<String>)
    ensures
        texts(result@) == ordered_set(texts(values@)),
        strictly_ascending(texts(result@)),
        same_members(texts(result@), texts(values@)),
{
    let mut result: Vec<String> = Vec::new();
    let ghost all = texts(values@);
    let mut i: usize = 0;
    while i < values.len()
        invariant
            i <= values.len(),
            all == texts(values@),
            strictly_ascending(texts(result@)),
            same_members(texts(result@), all.take(i as int)),
        decreases values.len() - i,
    {
        insert_ordered(&mut result, values[i].clone());
        proof {
            lemma_members_of_push(all.take(i as int), all[i as int]);
            assert(all.take(i + 1) =~= all.take(i as int).push(all[i as int]));
        }
        i += 1;
    }
    proof {
        assert(all.take(all.len() as int) =~= all);
        lemma_ordered_set(texts(result@), all);
    }
    result
}

/// What a list holds after a text was added.
pub proof fn lemma_members_of_push(values: Seq<Seq<char>>, value: Seq<char>)
    ensures
        forall|text: Seq<char>| #[trigger]
            values.push(value).contains(text) <==> values.contains(text) || text == value,
{
    assert forall|text: Seq<char>| #[trigger] values.push(value).contains(text) <==> values.contains(
        text,
    ) || text == value by {
        if values.contains(text) {
            let k = values.index_of(text);
            assert(values.push(value)[k] == text);
        }
        if text == value {
            assert(values.push(value)[values.len() as int] == text);
        }
        if values.push(value).contains(text) {
            let k = values.push(value).index_of(text);
            if k < values.len() {
                assert(values[k] == text);
            }
        }
    }
}

/// A text in its place in an ascending list.
spec fn put_in_order(ordered: Seq<Seq<char>>, value: Seq<char>) -> Seq<Seq<char>>
    decreases ordered.len(),
{
    if ordered.len() == 0 || comes_before(ordered.last(), value) {
        ordered.push(value)
    } else if ordered.last() == value {
        ordered
    } else {
        put_in_order(ordered.drop_last(), value).push(ordered.last())
    }
}

proof fn lemma_put_in_order(ordered: Seq<Seq<char>>, value: Seq<char>)
    requires
        strictly_ascending(ordered),
    ensures
        strictly_ascending(put_in_order(ordered, value)),
        forall|text: Seq<char>| #[trigger]
            put_in_order(ordered, value).contains(text) <==> ordered.contains(text) || text == value,
    decreases ordered.len(),
{
    let put = put_in_order(ordered, value);
    if ordered.len() == 0 || comes_before(ordered.last(), value) {
        lemma_members_of_push(ordered, value);
        assert forall|i: int, j: int| 0 <= i < j < put.len() implies comes_before(
            #[trigger] put[i],
            #[trigger] put[j],
        ) by {
            if j == ordered.len() && i < ordered.len() - 1 {
                lemma_transitive(ordered[i], ordered[ordered.len() - 1], value);
            }
        }
    } else if ordered.last() == value {
        assert(ordered[ordered.len() - 1] == value);
    } else {
        let rest = ordered.drop_last();
        let last = ordered.last();
        assert(strictly_ascending(rest)) by {
            assert forall|i: int, j: int| 0 <= i < j < rest.len() implies comes_before(
                #[trigger] rest[i],
                #[trigger] rest[j],
            ) by {
                assert(rest[i] == ordered[i] && rest[j] == ordered[j]);
            }
        }
        lemma_put_in_order(rest, value);
        lemma_total(last, value);
        let below = put_in_order(rest, value);
        lemma_members_of_push(below, last);
        lemma_members_of_push(rest, last);
        assert(rest.push(last) =~= ordered);
        assert forall|i: int, j: int| 0 <= i < j < put.len() implies comes_before(
            #[trigger] put[i],
            #[trigger] put[j],
        ) by {
            if j < below.len() {
                assert(put[i] == below[i] && put[j] == below[j]);
            } else {
                assert(put[i] == below[i] && put[j] == last);
                assert(below.contains(below[i]));
                if below[i] != value {
                    let k = rest.index_of(below[i]);
                    assert(ordered[k] == below[i]);
                }
            }
        }
    }
}

/// Every list of texts has an ordered set.
pub proof fn lemma_ordered_exists(values: Seq<Seq<char>>)
    ensures
        strictly_ascending(ordered_set(values)),
        same_members(ordered_set(values), values),
{
    let ordered = lemma_some_order(values);
    lemma_ordered_set(ordered, values);
}

proof fn lemma_some_order(values: Seq<Seq<char>>) -> (ordered: Seq<Seq<char>>)
    ensures
        strictly_ascending(ordered),
        same_members(ordered, values),
    decreases values.len(),
{
    if values.len() == 0 {
        values
    } else {
        let rest = values.drop_last();
        let earlier = lemma_some_order(rest);
        let ordered = put_in_order(earlier, values.last());
        lemma_put_in_order(earlier, values.last());
        lemma_members_of_push(rest, values.last());
        assert(rest.push(values.last()) =~= values);
        assert forall|text: Seq<char>| ordered.contains(text) <==> #[trigger] values.contains(
            text,
        ) by {
            assert(earlier.contains(text) <==> rest.contains(text));
        }
        ordered
    }
}

/// A strictly ascending list is the ordered set of its texts.
pub proof fn lemma_ordered_set(ordered: Seq<Seq<char>>, values: Seq<Seq<char>>)
    requires
        strictly_ascending(ordered),
        same_members(ordered, values),
    ensures
        ordered_set(values) == ordered,
{
    let chosen = ordered_set(values);
    assert(strictly_ascending(chosen) && same_members(chosen, values));
    assert(same_members(chosen, ordered)) by {
        assert forall|value: Seq<char>| chosen.contains(value) <==> #[trigger] ordered.contains(
            value,
        ) by {
            assert(chosen.contains(value) <==> values.contains(value));
            assert(ordered.contains(value) <==> values.contains(value));
        }
    }
    lemma_ascending_unique(chosen, ordered);
}

/// The texts of a list in ascending order.
#[verifier::loop_isolation(false)]
pub fn sort_texts(values: &Vec<String>) -> (result: Vec<String>)
    ensures
        texts(result@) == sorted(texts(values@)),
{
    let ghost all = texts(values@);
    let ghost order = |left: Seq<char>, right: Seq<char>| at_most(left, right);
    let mut result: Vec<String> = Vec::new();
    let mut i: usize = 0;
    proof {
        lemma_at_most_orders();
    }
    assert(texts(result@) =~= all.take(0));
    while i < values.len()
        invariant
            i <= values.len(),
            vstd::relations::sorted_by(texts(result@), order),
            texts(result@).to_multiset() == all.take(i as int).to_multiset(),
        decreases values.len() - i,
    {
        let ghost before = texts(result@);
        let ghost text = values@[i as int]@;
        let mut position: usize = 0;
        while position < result.len() && !is_before(values[i].as_str(), result[position].as_str())
            invariant
                position <= result.len(),
                texts(result@) == before,
                forall|j: int| 0 <= j < position ==> at_most(#[trigger] before[j], text),
            decreases result.len() - position,
        {
            assert(before[position as int] == result@[position as int]@);
            position += 1;
        }
        proof {
            if position < result@.len() {
                assert(before[position as int] == result@[position as int]@);
                assert(comes_before(text, before[position as int]));
                assert(order(text, before[position as int])) by {
                    if comes_before(before[position as int], text) {
                        lemma_transitive(text, before[position as int], text);
                        lemma_irreflexive(text);
                    }
                }
            }
        }
        result.insert(position, values[i].clone());
        proof {
            let after = texts(result@);
            let at = position as int;
            assert(after =~= before.insert(at, text));
            assert forall|a: int, b: int| 0 <= a < b < after.len() implies #[trigger] order(
                after[a],
                after[b],
            ) by {
                if a > at {
                    assert(order(before[a - 1], before[b - 1]));
                } else if a == at {
                    if b - 1 > at {
                        assert(order(before[at], before[b - 1]));
                        assert(order(text, before[at]));
                    }
                } else if b < at {
                    assert(order(before[a], before[b]));
                } else if b > at {
                    assert(order(before[a], before[b - 1]));
                }
            }
            vstd::seq_lib::to_multiset_insert(before, at, text);
            assert(all.take(i + 1) =~= all.take(i as int).push(text));
            vstd::seq_lib::to_multiset_build(all.take(i as int), text);
        }
        i += 1;
    }
    proof {
        assert(all.take(all.len() as int) =~= all);
        all.lemma_sort_by_ensures(order);
        vstd::seq_lib::lemma_sorted_unique(texts(result@), all.sort_by(order), order);
    }
    result
}

} // verus!
