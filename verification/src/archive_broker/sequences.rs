//! The latest operation of each call that is under way.
use vstd::prelude::*;

use crate::text::same_text;

verus! {

/// How many calls are remembered at most.
pub const SOURCE_SEQUENCE_LIMIT: usize = 4_096;

/// A call and the place of its latest operation.
#[derive(Debug)]
pub struct SourceSequence {
    pub source_key: String,
    pub sequence: u8,
}

/// The contents of a [`SourceSequence`].
#[verifier::ext_equal]
pub struct SequenceModel {
    pub key: Seq<char>,
    pub sequence: u8,
}

impl View for SourceSequence {
    type V = SequenceModel;

    open spec fn view(&self) -> SequenceModel {
        SequenceModel { key: self.source_key@, sequence: self.sequence }
    }
}

/// The calls that are under way, the one that changed last at the end.
#[derive(Debug)]
pub struct SourceSequences {
    entries: Vec<SourceSequence>,
}

/// A call is among those that are remembered.
pub open spec fn remembers(entries: Seq<SequenceModel>, key: Seq<char>) -> bool {
    exists|i: int| 0 <= i < entries.len() && (#[trigger] entries[i]).key == key
}

/// No call is remembered twice.
pub open spec fn distinct_keys(entries: Seq<SequenceModel>) -> bool {
    forall|i: int, j: int|
        0 <= i < j < entries.len() ==> (#[trigger] entries[i]).key != (#[trigger] entries[j]).key
}

/// The entries of all other calls.
pub open spec fn without(entries: Seq<SequenceModel>, key: Seq<char>) -> Seq<SequenceModel> {
    entries.filter(|entry: SequenceModel| entry.key != key)
}

/// An operation comes after a later one of the same call.
pub open spec fn regresses(entries: Seq<SequenceModel>, key: Seq<char>, sequence: u8) -> bool {
    exists|i: int|
        0 <= i < entries.len() && (#[trigger] entries[i]).key == key && sequence
            < entries[i].sequence
}

/// The entries after an operation of a call: it comes last, and the oldest call is forgotten where
/// there is no room.
pub open spec fn recorded(entries: Seq<SequenceModel>, key: Seq<char>, sequence: u8) -> Seq<
    SequenceModel,
> {
    let entry = SequenceModel { key, sequence };
    if remembers(entries, key) {
        without(entries, key).push(entry)
    } else if entries.len() >= SOURCE_SEQUENCE_LIMIT {
        entries.skip(entries.len() - SOURCE_SEQUENCE_LIMIT + 1).push(entry)
    } else {
        entries.push(entry)
    }
}

impl View for SourceSequences {
    type V = Seq<SequenceModel>;

    closed spec fn view(&self) -> Seq<SequenceModel> {
        self.entries@.map_values(|entry: SourceSequence| entry@)
    }
}

impl SourceSequences {
    /// No call is remembered twice, and not too many calls are.
    pub open spec fn well_formed(&self) -> bool {
        distinct_keys(self@) && self@.len() <= SOURCE_SEQUENCE_LIMIT
    }
}

proof fn lemma_without(entries: Seq<SequenceModel>, key: Seq<char>)
    ensures
        !remembers(without(entries, key), key),
        without(entries, key).len() <= entries.len(),
        remembers(entries, key) ==> without(entries, key).len() < entries.len(),
        !remembers(entries, key) ==> without(entries, key) == entries,
        distinct_keys(entries) ==> distinct_keys(without(entries, key)),
        forall|other: Seq<char>|
            other != key ==> (#[trigger] remembers(without(entries, key), other) == remembers(
                entries,
                other,
            )),
    decreases entries.len(),
{
    let keep = |entry: SequenceModel| entry.key != key;
    reveal(Seq::filter);
    if entries.len() > 0 {
        let front = entries.drop_last();
        let last = entries.last();
        lemma_without(front, key);
        let rest = without(front, key);
        assert(without(entries, key) == if keep(last) {
            rest.push(last)
        } else {
            rest
        });
        if !remembers(entries, key) {
            assert(last.key != key) by {
                assert(entries[entries.len() - 1] == last);
            }
            if remembers(front, key) {
                let i = choose|i: int| 0 <= i < front.len() && (#[trigger] front[i]).key == key;
                assert(entries[i].key == key);
            }
            assert(entries =~= front.push(last));
        }
        if remembers(entries, key) && last.key != key {
            let i = choose|i: int| 0 <= i < entries.len() && (#[trigger] entries[i]).key == key;
            assert(front[i].key == key);
        }
        assert forall|other: Seq<char>| other != key implies (#[trigger] remembers(
            without(entries, key),
            other,
        ) == remembers(entries, other)) by {
            assert(remembers(rest, other) == remembers(front, other));
            let all = without(entries, key);
            if remembers(all, other) {
                let i = choose|i: int| 0 <= i < all.len() && (#[trigger] all[i]).key == other;
                if i < rest.len() {
                    assert(rest[i].key == other);
                    let k = choose|k: int| 0 <= k < front.len() && (#[trigger] front[k]).key
                        == other;
                    assert(entries[k].key == other);
                } else {
                    assert(entries[entries.len() - 1].key == other);
                }
            }
            if remembers(entries, other) {
                let i = choose|i: int| 0 <= i < entries.len() && (#[trigger] entries[i]).key
                    == other;
                if i < front.len() {
                    assert(front[i].key == other);
                    let k = choose|k: int| 0 <= k < rest.len() && (#[trigger] rest[k]).key == other;
                    assert(all[k].key == other);
                } else {
                    assert(all[all.len() - 1].key == other);
                }
            }
        }
        if distinct_keys(entries) {
            assert(distinct_keys(front)) by {
                assert forall|i: int, j: int| 0 <= i < j < front.len() implies (
                #[trigger] front[i]).key != (#[trigger] front[j]).key by {
                    assert(entries[i].key != entries[j].key);
                }
            }
            let all = without(entries, key);
            if keep(last) {
                assert forall|i: int, j: int| 0 <= i < j < all.len() implies (
                #[trigger] all[i]).key != (#[trigger] all[j]).key by {
                    if j == rest.len() {
                        if all[i].key == last.key {
                            assert(rest[i].key == last.key);
                            assert(remembers(rest, last.key));
                            let k = choose|k: int|
                                0 <= k < front.len() && (#[trigger] front[k]).key == last.key;
                            assert(entries[k].key != entries[entries.len() - 1].key);
                        }
                    } else {
                        assert(rest[i].key != rest[j].key);
                    }
                }
            }
        }
    } else {
        assert(without(entries, key) =~= entries);
    }
}

impl Default for SourceSequences {
    fn default() -> (sequences: Self)
        ensures
            sequences@.len() == 0,
            sequences.well_formed(),
    {
        SourceSequences { entries: Vec::new() }
    }
}

impl SourceSequences {
    /// How many calls are remembered.
    pub fn len(&self) -> (count: usize)
        ensures
            count == self@.len(),
    {
        self.entries.len()
    }

    fn find(&self, source_key: &str) -> (index: Option<usize>)
        ensures
            match index {
                Some(i) => i < self@.len() && self@[i as int].key == source_key@,
                None => !remembers(self@, source_key@),
            },
    {
        let ghost all = self@;
        let mut i: usize = 0;
        while i < self.entries.len()
            invariant
                i <= self.entries.len(),
                all == self@,
                forall|j: int| 0 <= j < i ==> (#[trigger] all[j]).key != source_key@,
            decreases self.entries.len() - i,
        {
            assert(all[i as int] == self.entries@[i as int]@);
            if same_text(self.entries[i].source_key.as_str(), source_key) {
                return Some(i);
            }
            i += 1;
        }
        None
    }

    /// Whether a call is remembered.
    pub fn contains(&self, source_key: &str) -> (found: bool)
        ensures
            found == remembers(self@, source_key@),
    {
        self.find(source_key).is_some()
    }

    /// Whether an operation comes after a later one of the same call.
    pub fn is_regression(&self, source_key: &str, sequence: u8) -> (found: bool)
        requires
            self.well_formed(),
        ensures
            found == regresses(self@, source_key@, sequence),
    {
        match self.find(source_key) {
            Some(i) => {
                proof {
                    assert forall|j: int|
                        0 <= j < self@.len() && (#[trigger] self@[j]).key
                            == source_key@ implies j == i by {
                        if j < i {
                            assert(self@[j].key != self@[i as int].key);
                        } else if j > i {
                            assert(self@[i as int].key != self@[j].key);
                        }
                    }
                    assert(self@[i as int] == self.entries@[i as int]@);
                }
                sequence < self.entries[i].sequence
            },
            None => false,
        }
    }

    fn drop_key(&mut self, source_key: &str)
        requires
            old(self).well_formed(),
        ensures
            final(self)@ == without(old(self)@, source_key@),
            final(self).well_formed(),
    {
        let ghost all = self@;
        proof {
            lemma_without(all, source_key@);
        }
        if let Some(i) = self.find(source_key) {
            let removed = self.entries.remove(i);
            proof {
                lemma_without_is_removal(all, source_key@, i as int);
                assert(self@ =~= all.remove(i as int));
            }
        }
    }

    /// Take note of an operation of a call.
    pub fn record(&mut self, source_key: &str, sequence: u8)
        requires
            old(self).well_formed(),
        ensures
            final(self)@ == recorded(old(self)@, source_key@, sequence),
            final(self).well_formed(),
    {
        let ghost all = self@;
        let entry = SourceSequence { source_key: source_key.to_owned(), sequence };
        let ghost model = entry@;
        if self.contains(source_key) {
            self.drop_key(source_key);
            proof {
                lemma_without(all, source_key@);
            }
        } else if self.entries.len() >= SOURCE_SEQUENCE_LIMIT {
            let oldest = self.entries.remove(0);
            proof {
                assert(self@ =~= all.skip(1));
                assert forall|i: int, j: int| 0 <= i < j < self@.len() implies (
                #[trigger] self@[i]).key != (#[trigger] self@[j]).key by {
                    assert(all[i + 1].key != all[j + 1].key);
                }
                assert(!remembers(self@, source_key@)) by {
                    if remembers(self@, source_key@) {
                        let i = choose|i: int|
                            0 <= i < self@.len() && (#[trigger] self@[i]).key == source_key@;
                        assert(all[i + 1].key == source_key@);
                    }
                }
            }
        }
        let ghost before = self@;
        self.entries.push(entry);
        proof {
            assert(self@ =~= before.push(model));
            assert forall|i: int, j: int| 0 <= i < j < self@.len() implies (
            #[trigger] self@[i]).key != (#[trigger] self@[j]).key by {
                if j == before.len() {
                    if before[i].key == source_key@ {
                        assert(remembers(before, source_key@));
                    }
                } else {
                    assert(before[i].key != before[j].key);
                }
            }
        }
    }

    /// Forget a call.
    pub fn finish(&mut self, source_key: &str)
        requires
            old(self).well_formed(),
        ensures
            final(self)@ == without(old(self)@, source_key@),
            final(self).well_formed(),
    {
        self.drop_key(source_key);
    }
}

proof fn lemma_without_is_removal(entries: Seq<SequenceModel>, key: Seq<char>, index: int)
    requires
        distinct_keys(entries),
        0 <= index < entries.len(),
        entries[index].key == key,
    ensures
        without(entries, key) == entries.remove(index),
    decreases entries.len(),
{
    reveal(Seq::filter);
    let front = entries.drop_last();
    let last = entries.last();
    assert(distinct_keys(front)) by {
        assert forall|i: int, j: int| 0 <= i < j < front.len() implies (#[trigger] front[i]).key
            != (#[trigger] front[j]).key by {
            assert(entries[i].key != entries[j].key);
        }
    }
    if index == entries.len() - 1 {
        lemma_without(front, key);
        assert(!remembers(front, key)) by {
            if remembers(front, key) {
                let i = choose|i: int| 0 <= i < front.len() && (#[trigger] front[i]).key == key;
                assert(entries[i].key != entries[index].key);
            }
        }
        assert(entries.remove(index) =~= front);
    } else {
        lemma_without_is_removal(front, key, index);
        assert(entries[index].key != entries[entries.len() - 1].key);
        assert(entries.remove(index) =~= front.remove(index).push(last));
    }
}

/// After an operation of a call was recorded, exactly the earlier operations of the call are
/// refused; after the call is finished, none is.
pub proof fn lemma_sequence_guards_its_call(
    entries: Seq<SequenceModel>,
    key: Seq<char>,
    sequence: u8,
    later: u8,
)
    ensures
        regresses(recorded(entries, key, sequence), key, later) == (later < sequence),
        !regresses(without(entries, key), key, later),
{
    lemma_without(entries, key);
    let after = recorded(entries, key, sequence);
    let last = after.len() - 1;
    assert(after[last].key == key && after[last].sequence == sequence);
    if regresses(after, key, later) {
        let i = choose|i: int|
            0 <= i < after.len() && (#[trigger] after[i]).key == key && later < after[i].sequence;
        if i < last {
            let rest = after.drop_last();
            assert(rest[i].key == key);
            if remembers(entries, key) {
                assert(rest =~= without(entries, key));
                assert(remembers(without(entries, key), key));
            } else if entries.len() >= SOURCE_SEQUENCE_LIMIT {
                let skipped = entries.len() - SOURCE_SEQUENCE_LIMIT + 1;
                assert(rest =~= entries.skip(skipped));
                assert(entries[i + skipped].key == key);
            } else {
                assert(rest =~= entries);
                assert(entries[i].key == key);
            }
        }
    }
    let others = without(entries, key);
    if regresses(others, key, later) {
        let i = choose|i: int|
            0 <= i < others.len() && (#[trigger] others[i]).key == key && later
                < others[i].sequence;
        assert(remembers(others, key));
    }
}

} // verus!
