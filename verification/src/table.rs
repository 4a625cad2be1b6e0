//! A store of records, one for each account that has one.

use crate::address::Address;
use vstd::prelude::*;

verus! {

/// Records kept under the identity of an account. Writing under an identity
/// that has a record already replaces that record.
///
/// Its view is the map from identities to records.
pub struct Table<V> {
    keys: Vec<Address>,
    values: Vec<V>,
}

impl<V> Table<V> {
    /// Whether place `i` holds the record of `key`.
    spec fn holds(&self, key: Seq<char>, i: int) -> bool {
        0 <= i < self.keys.len() && self.keys[i]@ == key
    }

    /// The place of the record of `key`, where there is one.
    spec fn place(&self, key: Seq<char>) -> int {
        choose|i: int| self.holds(key, i)
    }

    /// Each record has its identity, and no identity has two records.
    pub closed spec fn wf(&self) -> bool {
        &&& self.keys.len() == self.values.len()
        &&& forall|i: int, j: int|
            0 <= i < j < self.keys.len() ==> #[trigger] self.keys[i]@ != #[trigger] self.keys[j]@
    }

    pub closed spec fn view(&self) -> Map<Seq<char>, V> {
        Map::new(
            |key: Seq<char>| exists|i: int| self.holds(key, i),
            |key: Seq<char>| self.values[self.place(key)],
        )
    }

    /// The record of `key` stands at `i`, and nowhere else.
    proof fn lemma_place(&self, key: Seq<char>, i: int)
        requires
            self.wf(),
            self.holds(key, i),
        ensures
            self.place(key) == i,
            self@.contains_key(key),
            self@[key] == self.values[i],
    {
        let chosen = self.place(key);
        assert(self.holds(key, chosen));
        if chosen < i {
            assert(self.keys[chosen]@ != self.keys[i]@);
        } else if i < chosen {
            assert(self.keys[i]@ != self.keys[chosen]@);
        }
    }

    /// A store without records.
    pub fn new() -> (table: Self)
        ensures
            table.wf(),
            table@ == Map::<Seq<char>, V>::empty(),
    {
        let table = Table { keys: Vec::new(), values: Vec::new() };
        assert(table@ =~= Map::<Seq<char>, V>::empty());
        table
    }

    /// The place of the record of `key`, if it has one.
    fn find(&self, key: &Address) -> (found: Option<usize>)
        requires
            self.wf(),
        ensures
            match found {
                Some(i) => self.holds(key@, i as int),
                None => !self@.contains_key(key@),
            },
    {
        let mut i: usize = 0;
        while i < self.keys.len()
            invariant
                i <= self.keys.len(),
                forall|k: int| 0 <= k < i ==> !self.holds(key@, k),
            decreases self.keys.len() - i,
        {
            if self.keys[i] == *key {
                return Some(i);
            }
            i += 1;
        }
        None
    }

    /// The record of `key`, if it has one.
    pub fn get(&self, key: &Address) -> (record: Option<&V>)
        requires
            self.wf(),
        ensures
            match record {
                Some(record) => self@.contains_key(key@) && self@[key@] == *record,
                None => !self@.contains_key(key@),
            },
    {
        match self.find(key) {
            Some(i) => {
                proof {
                    self.lemma_place(key@, i as int);
                }
                Some(&self.values[i])
            },
            None => None,
        }
    }

    /// Puts `record` under `key`, in place of the record that `key` had.
    pub fn set(&mut self, key: Address, record: V)
        requires
            old(self).wf(),
        ensures
            final(self).wf(),
            final(self)@ == old(self)@.insert(key@, record),
    {
        let ghost before = *self;
        match self.find(&key) {
            Some(i) => {
                self.values.set(i, record);
                proof {
                    let after = *self;
                    assert forall|k: Seq<char>| #[trigger]
                        after@.contains_key(k) == before@.insert(key@, record).contains_key(
                            k,
                        ) by {
                        if before@.contains_key(k) {
                            let p = choose|p: int| before.holds(k, p);
                            assert(after.holds(k, p));
                        }
                        if after@.contains_key(k) {
                            let p = choose|p: int| after.holds(k, p);
                            assert(before.holds(k, p));
                        }
                        if k == key@ {
                            assert(after.holds(k, i as int));
                            assert(before.holds(k, i as int));
                        }
                    }
                    assert forall|k: Seq<char>| #[trigger] after@.contains_key(k) implies after@[k]
                        == before@.insert(key@, record)[k] by {
                        let p = choose|p: int| after.holds(k, p);
                        assert(before.holds(k, p));
                        after.lemma_place(k, p);
                        before.lemma_place(k, p);
                        if k == key@ {
                            after.lemma_place(k, i as int);
                        }
                    }
                    assert(after@ =~= before@.insert(key@, record));
                }
            },
            None => {
                self.keys.push(key);
                self.values.push(record);
                proof {
                    let after = *self;
                    let last = before.keys.len() as int;
                    assert forall|i: int, j: int| 0 <= i < j < after.keys.len() implies
                        #[trigger] after.keys[i]@ != #[trigger] after.keys[j]@ by {
                        if j == last {
                            assert(!before.holds(key@, i));
                        }
                    }
                    assert(after.holds(key@, last));
                    assert forall|k: Seq<char>| #[trigger]
                        after@.contains_key(k) == before@.insert(key@, record).contains_key(
                            k,
                        ) by {
                        if before@.contains_key(k) {
                            let p = choose|p: int| before.holds(k, p);
                            assert(after.holds(k, p));
                        }
                        if after@.contains_key(k) && k != key@ {
                            let p = choose|p: int| after.holds(k, p);
                            assert(before.holds(k, p));
                        }
                    }
                    assert forall|k: Seq<char>| #[trigger] after@.contains_key(k) implies after@[k]
                        == before@.insert(key@, record)[k] by {
                        let p = choose|p: int| after.holds(k, p);
                        after.lemma_place(k, p);
                        if k != key@ {
                            assert(before.holds(k, p));
                            before.lemma_place(k, p);
                        }
                    }
                    assert(after@ =~= before@.insert(key@, record));
                }
            },
        }
    }
}

} // verus!
