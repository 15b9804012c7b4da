//! A table from 32-byte keys to values, kept as a list in which no key
//! occurs twice.

use vstd::prelude::*;
use crate::ids::same_bytes;

verus! {

/// One row of a table.
pub struct Entry<V> {
    pub key: [u8; 32],
    pub value: V,
}

/// A table from 32-byte keys to values.
pub struct Store<V> {
    pub entries: Vec<Entry<V>>,
}

impl<V> Store<V> {
    /// Row `i` holds `key`.
    pub open spec fn key_at(&self, key: Seq<u8>, i: int) -> bool {
        0 <= i < self.entries@.len() && self.entries@[i].key@ == key
    }

    /// No key occurs in two rows.
    pub open spec fn wf(&self) -> bool {
        forall|i: int, j: int|
            #![trigger self.entries@[i], self.entries@[j]]
            0 <= i < j < self.entries@.len() ==> self.entries@[i].key@ != self.entries@[j].key@
    }

    /// The table as a map: each key with the value of its row.
    pub open spec fn view(&self) -> Map<Seq<u8>, V> {
        Map::new(
            |key: Seq<u8>| exists|i: int| self.key_at(key, i),
            |key: Seq<u8>| self.entries@[choose|i: int| self.key_at(key, i)].value,
        )
    }

    /// The row that holds a key gives the key's value.
    pub proof fn lemma_row(&self, i: int)
        requires
            self.wf(),
            0 <= i < self.entries@.len(),
        ensures
            self@.dom().contains(self.entries@[i].key@),
            self@[self.entries@[i].key@] == self.entries@[i].value,
    {
        let key = self.entries@[i].key@;
        assert(self.key_at(key, i));
        let chosen = choose|j: int| self.key_at(key, j);
        assert(chosen == i);
    }

    /// An empty table.
    pub fn new() -> (store: Self)
        ensures
            store.wf(),
            store@ == Map::<Seq<u8>, V>::empty(),
    {
        let store = Store { entries: Vec::new() };
        assert(store@ =~= Map::<Seq<u8>, V>::empty());
        store
    }

    /// The row that holds `key`, if there is one.
    pub fn position(&self, key: &[u8; 32]) -> (found: Option<usize>)
        requires
            self.wf(),
        ensures
            match found {
                Some(i) => self.key_at(key@, i as int) && self@.dom().contains(key@) && self@[key@]
                    == self.entries@[i as int].value,
                None => !self@.dom().contains(key@),
            },
    {
        let mut i: usize = 0;
        while i < self.entries.len()
            invariant
                self.wf(),
                i <= self.entries@.len(),
                forall|j: int| 0 <= j < i ==> self.entries@[j].key@ != key@,
            decreases self.entries@.len() - i,
        {
            if same_bytes(&self.entries[i].key, key) {
                proof {
                    self.lemma_row(i as int);
                }
                return Some(i);
            }
            i += 1;
        }
        None
    }

    /// The value that `key` has, if it has one.
    pub fn get(&self, key: &[u8; 32]) -> (found: Option<&V>)
        requires
            self.wf(),
        ensures
            match found {
                Some(value) => self@.dom().contains(key@) && *value == self@[key@],
                None => !self@.dom().contains(key@),
            },
    {
        match self.position(key) {
            Some(i) => Some(&self.entries[i].value),
            None => None,
        }
    }

    /// Gives `key` the value `value`, in place of the one it had, if any.
    pub fn insert(&mut self, key: &[u8; 32], value: V)
        requires
            old(self).wf(),
        ensures
            final(self).wf(),
            final(self)@ == old(self)@.insert(key@, value),
    {
        let found = self.position(key);
        let entry = Entry { key: *key, value };
        match found {
            Some(i) => {
                self.entries[i] = entry;
            },
            None => {
                self.entries.push(entry);
            },
        }
        proof {
            let before = *old(self);
            let after = *self;
            assert(entry.key@ == key@);
            match found {
                Some(i) => {
                    assert(after.entries@ == before.entries@.update(i as int, entry));
                    assert forall|a: int| 0 <= a < after.entries@.len() implies after.entries@[a].key@
                        == before.entries@[a].key@ by {}
                },
                None => {
                    assert(after.entries@ == before.entries@.push(entry));
                    assert forall|a: int| 0 <= a < before.entries@.len() implies after.entries@[a]
                        == before.entries@[a] && before.entries@[a].key@ != key@ by {
                        if before.entries@[a].key@ == key@ {
                            assert(before.key_at(key@, a));
                        }
                    }
                },
            }
            assert(after.wf());
            assert forall|k: Seq<u8>| after@.dom().contains(k) <==> before@.insert(
                key@,
                value,
            ).dom().contains(k) by {
                if after@.dom().contains(k) {
                    let i = choose|i: int| after.key_at(k, i);
                    if k != key@ {
                        assert(before.key_at(k, i));
                    }
                }
                if before@.dom().contains(k) && k != key@ {
                    let i = choose|i: int| before.key_at(k, i);
                    assert(after.key_at(k, i));
                }
                if k == key@ {
                    match found {
                        Some(i) => {
                            assert(after.key_at(k, i as int));
                        },
                        None => {
                            assert(after.key_at(k, before.entries@.len() as int));
                        },
                    }
                }
            }
            assert forall|k: Seq<u8>| after@.dom().contains(k) implies after@[k] == before@.insert(
                key@,
                value,
            )[k] by {
                let i = choose|i: int| after.key_at(k, i);
                after.lemma_row(i);
                if k != key@ {
                    assert(before.key_at(k, i));
                    before.lemma_row(i);
                }
            }
            assert(after@ =~= before@.insert(key@, value));
        }
    }

    /// Takes `key` and its value out of the table.
    pub fn remove(&mut self, key: &[u8; 32])
        requires
            old(self).wf(),
        ensures
            final(self).wf(),
            final(self)@ == old(self)@.remove(key@),
    {
        let found = self.position(key);
        match found {
            Some(i) => {
                self.entries.remove(i);
            },
            None => {},
        }
        proof {
            let before = *old(self);
            let after = *self;
            match found {
                Some(at) => {
                    let at = at as int;
                    assert forall|j: int| 0 <= j < after.entries@.len() implies after.entries@[j]
                        == before.entries@[if j < at {
                        j
                    } else {
                        j + 1
                    }] by {}
                    assert(after.wf());
                    assert forall|k: Seq<u8>| after@.dom().contains(k) <==> before@.remove(
                        key@,
                    ).dom().contains(k) by {
                        if after@.dom().contains(k) {
                            let j = choose|j: int| after.key_at(k, j);
                            let i = if j < at {
                                j
                            } else {
                                j + 1
                            };
                            assert(before.key_at(k, i));
                        }
                        if before@.dom().contains(k) && k != key@ {
                            let i = choose|i: int| before.key_at(k, i);
                            let j = if i < at {
                                i
                            } else {
                                i - 1
                            };
                            assert(after.key_at(k, j));
                        }
                    }
                    assert forall|k: Seq<u8>| after@.dom().contains(k) implies after@[k]
                        == before@.remove(key@)[k] by {
                        let j = choose|j: int| after.key_at(k, j);
                        let i = if j < at {
                            j
                        } else {
                            j + 1
                        };
                        after.lemma_row(j);
                        assert(before.key_at(k, i));
                        before.lemma_row(i);
                    }
                    assert(after@ =~= before@.remove(key@));
                },
                None => {
                    assert(after@ =~= before@.remove(key@));
                },
            }
        }
    }
}

} // verus!
