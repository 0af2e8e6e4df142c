//! A table from names to values: a hash index from each name to its place in
//! a dense list of entries.
//!
//! Removal moves the last entry into the gap, so the list has no holes and
//! can be walked from end to end.

use crate::outside::{index_contents, index_get, index_insert, index_new, index_remove};
use crate::text::lemma_utf8_injective;
use dashmap::DashMap;
use vstd::prelude::*;
use vstd::string::*;
use vstd::utf8::*;

verus! {

/// Values by name.
pub struct NameTable<V> {
    index: DashMap<Vec<u8>, usize>,
    entries: Vec<(String, V)>,
}

impl<V> View for NameTable<V> {
    type V = Map<Seq<char>, V>;

    closed spec fn view(&self) -> Map<Seq<char>, V> {
        let index = index_contents(self.index);
        Map::new(
            |n: Seq<char>| index.contains_key(encode_utf8(n)),
            |n: Seq<char>| self.entries@[index[encode_utf8(n)] as int].1,
        )
    }
}

impl<V> NameTable<V> {
    /// The index and the list of entries agree.
    pub closed spec fn wf(&self) -> bool {
        let index = index_contents(self.index);
        &&& forall|i: int| #![trigger self.entries@[i]]
            0 <= i < self.entries@.len() ==> {
                &&& index.contains_key(encode_utf8(self.entries@[i].0@))
                &&& index[encode_utf8(self.entries@[i].0@)] == i
            }
        &&& forall|k: Seq<u8>| #![trigger index.contains_key(k)]
            index.contains_key(k) ==> {
                &&& index[k] < self.entries@.len()
                &&& encode_utf8(self.entries@[index[k] as int].0@) == k
            }
    }

    /// The entries in the order in which they are kept.
    pub closed spec fn pairs(&self) -> Seq<(Seq<char>, V)> {
        self.entries@.map_values(|e: (String, V)| (e.0@, e.1))
    }

    /// The kept entries are exactly the table's contents, each name once.
    pub proof fn lemma_pairs(&self)
        requires
            self.wf(),
        ensures
            forall|i: int| #![trigger self.pairs()[i]]
                0 <= i < self.pairs().len() ==> {
                    &&& self@.contains_key(self.pairs()[i].0)
                    &&& self@[self.pairs()[i].0] == self.pairs()[i].1
                },
            forall|i: int, j: int| #![trigger self.pairs()[i], self.pairs()[j]]
                0 <= i < j < self.pairs().len() ==> self.pairs()[i].0 != self.pairs()[j].0,
            forall|n: Seq<char>| #[trigger]
                self@.contains_key(n) ==> exists|i: int|
                    0 <= i < self.pairs().len() && #[trigger] self.pairs()[i] == (n, self@[n]),
            self@.dom().finite(),
            self@.dom().len() == self.pairs().len(),
    {
        let index = index_contents(self.index);
        let pairs = self.pairs();
        assert forall|i: int| #![trigger pairs[i]] 0 <= i < pairs.len() implies {
            &&& self@.contains_key(pairs[i].0)
            &&& self@[pairs[i].0] == pairs[i].1
        } by {
            let e = self.entries@[i];
            assert(pairs[i] == (e.0@, e.1));
        }
        assert forall|i: int, j: int| #![trigger pairs[i], pairs[j]]
            0 <= i < j < pairs.len() implies pairs[i].0 != pairs[j].0 by {
            let a = self.entries@[i];
            let b = self.entries@[j];
            assert(pairs[i] == (a.0@, a.1));
            assert(pairs[j] == (b.0@, b.1));
        }
        assert forall|n: Seq<char>| #[trigger] self@.contains_key(n) implies exists|i: int|
            0 <= i < pairs.len() && #[trigger] pairs[i] == (n, self@[n]) by {
            let i = index[encode_utf8(n)] as int;
            let e = self.entries@[i];
            lemma_utf8_injective(e.0@, n);
            assert(pairs[i] == (e.0@, e.1));
        }
        let names = pairs.map_values(|p: (Seq<char>, V)| p.0);
        assert(names.no_duplicates()) by {
            assert forall|i: int, j: int|
                0 <= i < names.len() && 0 <= j < names.len() && i != j implies names[i]
                != names[j] by {
                assert(names[i] == pairs[i].0);
                assert(names[j] == pairs[j].0);
                if i < j {
                    assert(pairs[i].0 != pairs[j].0);
                } else {
                    assert(pairs[j].0 != pairs[i].0);
                }
            }
        }
        assert(names.to_set() =~= self@.dom()) by {
            assert forall|n: Seq<char>| names.to_set().contains(n) implies self@.dom().contains(
                n,
            ) by {
                let i = choose|i: int| 0 <= i < names.len() && names[i] == n;
                assert(names[i] == pairs[i].0);
            }
            assert forall|n: Seq<char>| self@.dom().contains(n) implies names.to_set().contains(
                n,
            ) by {
                assert(self@.contains_key(n));
                let i = choose|i: int| 0 <= i < pairs.len() && #[trigger] pairs[i] == (n, self@[n]);
                assert(names[i] == n);
            }
        }
        names.unique_seq_to_set();
    }

    /// A table with no entries.
    pub fn new() -> (t: Self)
        ensures
            t.wf(),
            t@ == Map::<Seq<char>, V>::empty(),
    {
        let t = NameTable { index: index_new(), entries: Vec::new() };
        assert(t@ =~= Map::<Seq<char>, V>::empty());
        t
    }

    /// The number of entries.
    pub fn len(&self) -> (n: usize)
        requires
            self.wf(),
        ensures
            n == self.pairs().len(),
            self@.dom().finite(),
            n == self@.dom().len(),
    {
        proof {
            self.lemma_pairs();
        }
        self.entries.len()
    }

    /// The entry kept at place `i`.
    pub fn at(&self, i: usize) -> (entry: (&str, &V))
        requires
            self.wf(),
            i < self.pairs().len(),
        ensures
            (entry.0@, *entry.1) == self.pairs()[i as int],
    {
        let e = &self.entries[i];
        (e.0.as_str(), &e.1)
    }

    /// The value under `name`.
    pub fn get(&self, name: &str) -> (found: Option<&V>)
        requires
            self.wf(),
        ensures
            match found {
                Some(v) => self@.contains_key(name@) && self@[name@] == *v,
                None => !self@.contains_key(name@),
            },
    {
        match index_get(&self.index, name.as_bytes()) {
            Some(at) => Some(&self.entries[at].1),
            None => None,
        }
    }

    /// Sets the value under `name`.
    pub fn insert(&mut self, name: String, value: V)
        requires
            old(self).wf(),
        ensures
            final(self).wf(),
            final(self)@ == old(self)@.insert(name@, value),
    {
        let ghost before = *self;
        let ghost named = name@;
        let bytes = name.as_str().as_bytes_vec();
        match index_get(&self.index, bytes.as_slice()) {
            Some(at) => {
                self.entries.set(at, (name, value));
                assert(self.wf()) by {
                    let index = index_contents(self.index);
                    assert forall|i: int| #![trigger self.entries@[i]]
                        0 <= i < self.entries@.len() implies {
                        &&& index.contains_key(encode_utf8(self.entries@[i].0@))
                        &&& index[encode_utf8(self.entries@[i].0@)] == i
                    } by {
                        if i != at {
                            assert(self.entries@[i] == before.entries@[i]);
                        }
                    }
                }
                assert(self@ =~= before@.insert(named, value)) by {
                    assert forall|n: Seq<char>| #[trigger] self@.contains_key(n) implies self@[n]
                        == before@.insert(named, value)[n] by {
                        let i = index_contents(self.index)[encode_utf8(n)] as int;
                        if i == at {
                            assert(encode_utf8(n) == encode_utf8(before.entries@[i].0@));
                            lemma_utf8_injective(n, named);
                        } else {
                            assert(self.entries@[i] == before.entries@[i]);
                        }
                    }
                }
            },
            None => {
                let at: usize = self.entries.len();
                index_insert(&mut self.index, bytes, at);
                self.entries.push((name, value));
                assert(self.wf()) by {
                    let index = index_contents(self.index);
                    assert forall|i: int| #![trigger self.entries@[i]]
                        0 <= i < self.entries@.len() implies {
                        &&& index.contains_key(encode_utf8(self.entries@[i].0@))
                        &&& index[encode_utf8(self.entries@[i].0@)] == i
                    } by {
                        if i < at {
                            assert(self.entries@[i] == before.entries@[i]);
                        }
                    }
                    assert forall|k: Seq<u8>| #![trigger index.contains_key(k)]
                        index.contains_key(k) implies {
                        &&& index[k] < self.entries@.len()
                        &&& encode_utf8(self.entries@[index[k] as int].0@) == k
                    } by {
                        if k != encode_utf8(named) {
                            assert(index_contents(before.index).contains_key(k));
                            let i = index[k] as int;
                            assert(self.entries@[i] == before.entries@[i]);
                        }
                    }
                }
                assert(self@ =~= before@.insert(named, value)) by {
                    assert forall|n: Seq<char>| #[trigger]
                        self@.contains_key(n) == before@.insert(named, value).contains_key(n) by {
                        if encode_utf8(n) == encode_utf8(named) {
                            lemma_utf8_injective(n, named);
                        }
                    }
                    assert forall|n: Seq<char>| #[trigger] self@.contains_key(n) implies self@[n]
                        == before@.insert(named, value)[n] by {
                        if encode_utf8(n) == encode_utf8(named) {
                            lemma_utf8_injective(n, named);
                        } else {
                            assert(index_contents(before.index).contains_key(encode_utf8(n)));
                            let i = index_contents(self.index)[encode_utf8(n)] as int;
                            assert(self.entries@[i] == before.entries@[i]);
                        }
                    }
                }
            },
        }
    }

    /// Drops the entry under `name`, if there is one.
    pub fn remove(&mut self, name: &str)
        requires
            old(self).wf(),
        ensures
            final(self).wf(),
            final(self)@ == old(self)@.remove(name@),
    {
        let ghost before = *self;
        let bytes = name.as_bytes();
        match index_get(&self.index, bytes) {
            None => {
                assert(self@ =~= before@.remove(name@));
            },
            Some(at) => {
                let ghost last = before.entries@.len() - 1;
                index_remove(&mut self.index, bytes);
                let _ = self.entries.swap_remove(at);
                if at < self.entries.len() {
                    let moved = self.entries[at].0.as_str().as_bytes_vec();
                    index_insert(&mut self.index, moved, at);
                }
                let ghost old_index = index_contents(before.index);
                let ghost index = index_contents(self.index);
                assert(before.entries@[at as int].0@ == name@) by {
                    lemma_utf8_injective(before.entries@[at as int].0@, name@);
                }
                assert(forall|i: int| #![trigger self.entries@[i]]
                    0 <= i < self.entries@.len() ==> self.entries@[i] == before.entries@[if i
                        == at {
                        last
                    } else {
                        i
                    }]);
                assert forall|k: Seq<u8>| #[trigger]
                    index.contains_key(k) == (old_index.contains_key(k) && k != encode_utf8(
                        name@,
                    )) by {
                    if at < last {
                        assert(before.entries@[last].0@ == self.entries@[at as int].0@);
                        assert(old_index[encode_utf8(before.entries@[last].0@)] == last);
                    }
                }
                assert forall|k: Seq<u8>| #[trigger] index.contains_key(k) implies index[k] == (if old_index[k]
                    == last {
                    at
                } else {
                    old_index[k]
                }) by {
                    assert(old_index.contains_key(k));
                    if at < last {
                        assert(before.entries@[last].0@ == self.entries@[at as int].0@);
                        if old_index[k] == last {
                            assert(encode_utf8(before.entries@[last].0@) == k);
                        }
                    } else if old_index[k] == last {
                        assert(encode_utf8(before.entries@[last].0@) == k);
                    }
                }
                assert(self.wf()) by {
                    assert forall|i: int| #![trigger self.entries@[i]]
                        0 <= i < self.entries@.len() implies {
                        &&& index.contains_key(encode_utf8(self.entries@[i].0@))
                        &&& index[encode_utf8(self.entries@[i].0@)] == i
                    } by {
                        let j = if i == at {
                            last
                        } else {
                            i
                        };
                        assert(self.entries@[i] == before.entries@[j]);
                        let k = encode_utf8(before.entries@[j].0@);
                        assert(old_index.contains_key(k) && old_index[k] == j);
                        assert(old_index[encode_utf8(before.entries@[at as int].0@)] == at);
                        assert(index.contains_key(k));
                    }
                    assert forall|k: Seq<u8>| #![trigger index.contains_key(k)]
                        index.contains_key(k) implies {
                        &&& index[k] < self.entries@.len()
                        &&& encode_utf8(self.entries@[index[k] as int].0@) == k
                    } by {
                        assert(old_index.contains_key(k));
                        assert(encode_utf8(before.entries@[old_index[k] as int].0@) == k);
                        assert(old_index[k] != at);
                        let i = index[k] as int;
                        assert(self.entries@[i] == before.entries@[old_index[k] as int]);
                    }
                }
                assert(self@ =~= before@.remove(name@)) by {
                    assert forall|n: Seq<char>| #[trigger]
                        self@.contains_key(n) == before@.remove(name@).contains_key(n) by {
                        if encode_utf8(n) == encode_utf8(name@) {
                            lemma_utf8_injective(n, name@);
                        }
                        assert(index.contains_key(encode_utf8(n)) == (old_index.contains_key(
                            encode_utf8(n),
                        ) && encode_utf8(n) != encode_utf8(name@)));
                    }
                    assert forall|n: Seq<char>| #[trigger] self@.contains_key(n) implies self@[n]
                        == before@.remove(name@)[n] by {
                        let k = encode_utf8(n);
                        assert(index.contains_key(k));
                        assert(old_index.contains_key(k));
                        let i = index[k] as int;
                        assert(encode_utf8(before.entries@[old_index[k] as int].0@) == k);
                        assert(old_index[k] != at);
                        assert(self.entries@[i] == before.entries@[old_index[k] as int]);
                    }
                }
            },
        }
    }
}

} // verus!
