//! A finite mapping from byte strings to byte strings.

use vstd::prelude::*;
use crate::bytes::bytes_eq;

verus! {

/// The map that a list of entries stands for: each entry is inserted in turn,
/// so a later entry replaces an earlier one with the same key.
pub open spec fn entries_map(entries: Seq<(Vec<u8>, Vec<u8>)>) -> Map<Seq<u8>, Seq<u8>>
    decreases entries.len(),
{
    if entries.len() == 0 {
        Map::empty()
    } else {
        entries_map(entries.drop_last()).insert(entries.last().0@, entries.last().1@)
    }
}

/// True when no two entries have the same key.
pub open spec fn distinct_keys(entries: Seq<(Vec<u8>, Vec<u8>)>) -> bool {
    forall|i: int, j: int|
        0 <= i < j < entries.len() ==> (#[trigger] entries[i]).0@ != (#[trigger] entries[j]).0@
}

/// The keys of a map of entries are the keys of the entries.
pub proof fn lemma_entries_domain(entries: Seq<(Vec<u8>, Vec<u8>)>, key: Seq<u8>)
    ensures
        entries_map(entries).contains_key(key) <==> exists|i: int|
            0 <= i < entries.len() && (#[trigger] entries[i]).0@ == key,
    decreases entries.len(),
{
    if entries.len() > 0 {
        let front = entries.drop_last();
        lemma_entries_domain(front, key);
        if entries_map(entries).contains_key(key) {
            if entries.last().0@ == key {
                assert(entries[entries.len() - 1].0@ == key);
            } else {
                let i = choose|i: int| 0 <= i < front.len() && (#[trigger] front[i]).0@ == key;
                assert(entries[i].0@ == key);
            }
        }
        if exists|i: int| 0 <= i < entries.len() && (#[trigger] entries[i]).0@ == key {
            let i = choose|i: int| 0 <= i < entries.len() && (#[trigger] entries[i]).0@ == key;
            if i < entries.len() - 1 {
                assert(front[i].0@ == key);
            }
        }
    }
}

/// Where keys are distinct, the map gives each entry's key its value.
pub proof fn lemma_entries_value(entries: Seq<(Vec<u8>, Vec<u8>)>, i: int)
    requires
        distinct_keys(entries),
        0 <= i < entries.len(),
    ensures
        entries_map(entries).contains_key(entries[i].0@),
        entries_map(entries)[entries[i].0@] == entries[i].1@,
    decreases entries.len(),
{
    let front = entries.drop_last();
    if i < entries.len() - 1 {
        assert(distinct_keys(front)) by {
            assert forall|a: int, b: int| 0 <= a < b < front.len() implies (#[trigger] front[a]).0@
                != (#[trigger] front[b]).0@ by {
                assert(entries[a].0@ != entries[b].0@);
            }
        }
        lemma_entries_value(front, i);
        assert(front[i] == entries[i]);
        assert(entries[i].0@ != entries[entries.len() - 1].0@);
    }
}

/// Replacing the value of an entry is inserting its key with the new value.
pub proof fn lemma_entries_update(
    entries: Seq<(Vec<u8>, Vec<u8>)>,
    i: int,
    entry: (Vec<u8>, Vec<u8>),
)
    requires
        distinct_keys(entries),
        0 <= i < entries.len(),
        entries[i].0@ == entry.0@,
    ensures
        entries_map(entries.update(i, entry)) == entries_map(entries).insert(entry.0@, entry.1@),
        distinct_keys(entries.update(i, entry)),
    decreases entries.len(),
{
    let front = entries.drop_last();
    let last = entries.last();
    let updated = entries.update(i, entry);
    assert(distinct_keys(updated)) by {
        assert forall|a: int, b: int| 0 <= a < b < updated.len() implies (#[trigger] updated[a]).0@
            != (#[trigger] updated[b]).0@ by {
            assert(entries[a].0@ != entries[b].0@);
        }
    }
    if i == entries.len() - 1 {
        assert(updated.drop_last() =~= front);
        assert(entries_map(updated) =~= entries_map(entries).insert(entry.0@, entry.1@));
    } else {
        assert(distinct_keys(front)) by {
            assert forall|a: int, b: int| 0 <= a < b < front.len() implies (#[trigger] front[a]).0@
                != (#[trigger] front[b]).0@ by {
                assert(entries[a].0@ != entries[b].0@);
            }
        }
        lemma_entries_update(front, i, entry);
        assert(updated.drop_last() =~= front.update(i, entry));
        assert(updated.last() == last);
        assert(entries[i].0@ != entries[entries.len() - 1].0@);
        assert(entries_map(updated) =~= entries_map(entries).insert(entry.0@, entry.1@));
    }
}

/// A finite mapping from byte strings to byte strings. No key occurs twice.
#[derive(Debug, PartialEq, Eq)]
pub struct Mapping {
    entries: Vec<(Vec<u8>, Vec<u8>)>,
}

impl View for Mapping {
    type V = Map<Seq<u8>, Seq<u8>>;

    closed spec fn view(&self) -> Map<Seq<u8>, Seq<u8>> {
        entries_map(self.entries@)
    }
}

impl Mapping {
    #[verifier::type_invariant]
    spec fn distinct(self) -> bool {
        distinct_keys(self.entries@)
    }

    /// The number of entries.
    pub closed spec fn spec_len(&self) -> nat {
        self.entries@.len()
    }

    /// The key of entry `i`.
    pub closed spec fn spec_key(&self, i: int) -> Seq<u8> {
        self.entries@[i].0@
    }

    /// The empty mapping.
    pub fn new() -> (mapping: Mapping)
        ensures
            mapping@ == Map::<Seq<u8>, Seq<u8>>::empty(),
            mapping.spec_len() == 0,
    {
        Mapping { entries: Vec::new() }
    }

    /// The number of entries. No two entries have the same key.
    pub fn len(&self) -> (n: usize)
        ensures
            n == self.spec_len(),
            forall|i: int, j: int|
                0 <= i < j < n ==> #[trigger] self.spec_key(i) != #[trigger] self.spec_key(j),
    {
        proof {
            use_type_invariant(self);
        }
        self.entries.len()
    }

    /// Every key of the mapping is the key of one of its entries.
    pub proof fn lemma_keys_are_listed(&self, key: Seq<u8>)
        requires
            self@.contains_key(key),
        ensures
            exists|i: int| 0 <= i < self.spec_len() && #[trigger] self.spec_key(i) == key,
    {
        lemma_entries_domain(self.entries@, key);
        let i = choose|i: int|
            0 <= i < self.entries@.len() && (#[trigger] self.entries@[i]).0@ == key;
        assert(self.spec_key(i) == key);
    }

    /// The key of entry `i`, if there is such an entry. Entries stand in the
    /// order in which their keys were first inserted.
    pub fn key(&self, i: usize) -> (key: Option<&Vec<u8>>)
        ensures
            match key {
                Some(k) => i < self.spec_len() && k@ == self.spec_key(i as int)
                    && self@.contains_key(k@),
                None => i >= self.spec_len(),
            },
    {
        if i < self.entries.len() {
            proof {
                use_type_invariant(self);
                lemma_entries_value(self.entries@, i as int);
            }
            Some(&self.entries[i].0)
        } else {
            None
        }
    }

    /// The value of entry `i`, if there is such an entry: the value that the
    /// mapping gives its key.
    pub fn value(&self, i: usize) -> (value: Option<&Vec<u8>>)
        ensures
            match value {
                Some(v) => i < self.spec_len() && v@ == self@[self.spec_key(i as int)],
                None => i >= self.spec_len(),
            },
    {
        if i < self.entries.len() {
            proof {
                use_type_invariant(self);
                lemma_entries_value(self.entries@, i as int);
            }
            Some(&self.entries[i].1)
        } else {
            None
        }
    }

    /// The index of the entry whose key is `key`, if there is one.
    fn position(&self, key: &[u8]) -> (at: Option<usize>)
        ensures
            match at {
                Some(i) => i < self.entries@.len() && self.entries@[i as int].0@ == key@,
                None => forall|j: int| 0 <= j < self.entries@.len() ==> (
                #[trigger] self.entries@[j]).0@ != key@,
            },
    {
        let mut i: usize = 0;
        while i < self.entries.len()
            invariant
                i <= self.entries@.len(),
                forall|j: int| 0 <= j < i ==> (#[trigger] self.entries@[j]).0@ != key@,
            decreases self.entries@.len() - i,
        {
            if bytes_eq(self.entries[i].0.as_slice(), key) {
                return Some(i);
            }
            i = i + 1;
        }
        None
    }

    /// The value that the mapping gives `key`, if it has that key.
    pub fn get(&self, key: &[u8]) -> (value: Option<&Vec<u8>>)
        ensures
            match value {
                Some(v) => self@.contains_key(key@) && self@[key@] == v@,
                None => !self@.contains_key(key@),
            },
    {
        proof {
            use_type_invariant(self);
            lemma_entries_domain(self.entries@, key@);
        }
        match self.position(key) {
            Some(i) => {
                proof {
                    lemma_entries_value(self.entries@, i as int);
                }
                Some(&self.entries[i].1)
            },
            None => None,
        }
    }

    /// Gives `key` the value `value`, replacing the value it had, if any.
    pub fn insert(&mut self, key: Vec<u8>, value: Vec<u8>)
        ensures
            final(self)@ == old(self)@.insert(key@, value@),
    {
        proof {
            use_type_invariant(&*self);
        }
        let found = self.position(key.as_slice());
        let mut taken = Mapping { entries: Vec::new() };
        core::mem::swap(self, &mut taken);
        let Mapping { entries } = taken;
        let mut entries = entries;
        let ghost before = entries@;
        match found {
            Some(i) => {
                proof {
                    lemma_entries_update(before, i as int, (key, value));
                }
                entries.set(i, (key, value));
            },
            None => {
                proof {
                    let after = before.push((key, value));
                    assert(after.drop_last() =~= before);
                    assert forall|a: int, b: int| 0 <= a < b < after.len() implies (
                    #[trigger] after[a]).0@ != (#[trigger] after[b]).0@ by {
                        if b < before.len() {
                            assert(before[a].0@ != before[b].0@);
                        } else {
                            assert(before[a].0@ != key@);
                        }
                    }
                }
                entries.push((key, value));
            },
        }
        *self = Mapping { entries };
    }
}

} // verus!
