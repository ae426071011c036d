use crate::model::{
    lemma_binding_is_insert, lemma_lookup_after_removal, lemma_position_of, lookup, mapping,
    position_of, with_entry, without_key, Entries, Text,
};
use vstd::prelude::*;
use vstd::std_specs::cmp::{PartialEqSpec, PartialEqSpecImpl};

verus! {

/// A mapping keyed by text. It stands for the mapping from its keys to their values: the
/// order of its entries plays no part in what it is, nor in `==`. Of two entries under
/// one key the first counts; `insert` never makes a second.
#[derive(Debug)]
pub struct Dict<V> {
    pub entries: Vec<(String, V)>,
}

/// `a` has no key `k`, or `b` has it too, with a value that equals the one in `a`.
pub open spec fn covered<V: PartialEq>(a: Entries<V>, b: Entries<V>, k: Text) -> bool {
    match lookup(a, k) {
        None => true,
        Some(x) => match lookup(b, k) {
            Some(y) => x.eq_spec(&y),
            None => false,
        },
    }
}

impl<V> Dict<V> {
    /// The entries one by one, each key as text and each value as it is.
    pub open spec fn keyed(&self) -> Entries<V> {
        Seq::new(self.entries@.len(), |i: int| (self.entries@[i].0@, self.entries@[i].1))
    }

    /// The place of the first entry under `key`.
    fn place(&self, key: &String) -> (r: Option<usize>)
        ensures
            match r {
                Some(i) => i < self.entries@.len() && position_of(self.keyed(), key@) == Some(
                    i as int,
                ),
                None => position_of(self.keyed(), key@) is None,
            },
    {
        let mut i: usize = 0;
        while i < self.entries.len()
            invariant
                i <= self.entries@.len(),
                forall|j: int| 0 <= j < i ==> (#[trigger] self.keyed()[j]).0 != key@,
            decreases self.entries@.len() - i,
        {
            if self.entries[i].0 == *key {
                proof {
                    assert(self.keyed()[i as int].0 == key@);
                    lemma_position_of(self.keyed(), key@);
                }
                return Some(i);
            }
            i += 1;
        }
        proof {
            lemma_position_of(self.keyed(), key@);
        }
        None
    }
}

impl<V: PartialEq> Dict<V> {
    /// Tells whether every key of this mapping has in `other` a value that equals its
    /// own.
    fn within(&self, other: &Self) -> (r: bool)
        ensures
            V::obeys_eq_spec() ==> r == (forall|k: Text|
                #[trigger] covered(self.keyed(), other.keyed(), k)),
    {
        let mut i: usize = 0;
        proof {
            assert forall|k: Text| position_of(self.keyed(), k) is None implies #[trigger] covered(
                self.keyed(),
                other.keyed(),
                k,
            ) by {}
            assert forall|k: Text| position_of(self.keyed(), k) is Some implies position_of(
                self.keyed(),
                k,
            )->Some_0 >= 0 by {
                lemma_position_of(self.keyed(), k);
            }
        }
        while i < self.entries.len()
            invariant
                i <= self.entries@.len(),
                forall|k: Text|
                    V::obeys_eq_spec() && (match position_of(self.keyed(), k) {
                        Some(j) => j < i,
                        None => true,
                    }) ==> #[trigger] covered(self.keyed(), other.keyed(), k),
            decreases self.entries@.len() - i,
        {
            let key = &self.entries[i].0;
            proof {
                assert(self.keyed()[i as int].0 == key@);
                assert forall|k: Text| position_of(self.keyed(), k) == Some(i as int) implies k
                    == key@ by {
                    lemma_position_of(self.keyed(), k);
                }
            }
            let counts = match self.place(key) {
                Some(j) => j == i,
                None => false,
            };
            if counts {
                match other.place(key) {
                    None => {
                        assert(!covered(self.keyed(), other.keyed(), key@));
                        return false;
                    },
                    Some(j) => {
                        if !(self.entries[i].1 == other.entries[j].1) {
                            assert(V::obeys_eq_spec() ==> !covered(
                                self.keyed(),
                                other.keyed(),
                                key@,
                            ));
                            return false;
                        }
                    },
                }
            } else {
                proof {
                    lemma_position_of(self.keyed(), key@);
                }
            }
            i += 1;
        }
        proof {
            assert forall|k: Text| V::obeys_eq_spec() implies #[trigger] covered(
                self.keyed(),
                other.keyed(),
                k,
            ) by {
                lemma_position_of(self.keyed(), k);
            }
        }
        true
    }
}

impl<V: PartialEq> PartialEq for Dict<V> {
    /// Two mappings are equal when each key of one has an equal value in the other.
    fn eq(&self, other: &Self) -> (r: bool) {
        self.within(other) && other.within(self)
    }
}

impl<V: PartialEq> PartialEqSpecImpl for Dict<V> {
    open spec fn obeys_eq_spec() -> bool {
        V::obeys_eq_spec()
    }

    open spec fn eq_spec(&self, other: &Self) -> bool {
        &&& forall|k: Text| #[trigger] covered(self.keyed(), other.keyed(), k)
        &&& forall|k: Text| #[trigger] covered(other.keyed(), self.keyed(), k)
    }
}

impl<V: DeepView> DeepView for Dict<V> {
    type V = Map<Text, V::V>;

    open spec fn deep_view(&self) -> Map<Text, V::V> {
        mapping(self.listed())
    }
}

impl<V: DeepView> Dict<V> {
    /// The entries one by one, in the order in which they are held.
    pub open spec fn listed(&self) -> Entries<V::V> {
        Seq::new(
            self.entries@.len(),
            |i: int| (self.entries@[i].0@, self.entries@[i].1.deep_view()),
        )
    }

    /// A mapping without entries.
    pub fn new() -> (d: Self)
        ensures
            d.deep_view() == Map::<Text, V::V>::empty(),
            d.listed() == Seq::<(Text, V::V)>::empty(),
    {
        let d = Dict { entries: Vec::new() };
        assert(d.listed() =~= Seq::empty());
        assert(d.deep_view() =~= Map::empty());
        d
    }

    /// How many entries the mapping holds.
    pub fn len(&self) -> (n: usize)
        ensures
            n == self.listed().len(),
    {
        self.entries.len()
    }

    /// The place of the first entry under `key`: there is one exactly when the mapping has
    /// the key.
    pub fn find(&self, key: &str) -> (r: Option<usize>)
        ensures
            r is Some == self.deep_view().contains_key(key@),
            match r {
                Some(i) => i < self.entries@.len() && position_of(self.listed(), key@) == Some(
                    i as int,
                ) && self.deep_view()[key@] == self.entries@[i as int].1.deep_view(),
                None => position_of(self.listed(), key@) is None,
            },
    {
        let wanted = key.to_owned();
        let mut i: usize = 0;
        while i < self.entries.len()
            invariant
                i <= self.entries@.len(),
                wanted@ == key@,
                forall|j: int| 0 <= j < i ==> (#[trigger] self.listed()[j]).0 != key@,
            decreases self.entries@.len() - i,
        {
            if self.entries[i].0 == wanted {
                proof {
                    assert(self.listed()[i as int].0 == key@);
                    lemma_position_of(self.listed(), key@);
                }
                return Some(i);
            }
            i += 1;
        }
        proof {
            lemma_position_of(self.listed(), key@);
        }
        None
    }

    /// The value under `key`.
    pub fn get(&self, key: &str) -> (r: Option<&V>)
        ensures
            match r {
                Some(v) => self.deep_view().contains_key(key@) && self.deep_view()[key@]
                    == v.deep_view(),
                None => !self.deep_view().contains_key(key@),
            },
    {
        match self.find(key) {
            Some(i) => Some(&self.entries[i].1),
            None => None,
        }
    }

    /// Binds `key` to `value`, whatever it was bound to. Returns the value that the key
    /// had.
    pub fn insert(&mut self, key: String, value: V) -> (r: Option<V>)
        ensures
            final(self).deep_view() == old(self).deep_view().insert(key@, value.deep_view()),
            final(self).listed() == with_entry(old(self).listed(), key@, value.deep_view()),
            match r {
                Some(v) => old(self).deep_view().contains_key(key@) && old(self).deep_view()[key@]
                    == v.deep_view(),
                None => !old(self).deep_view().contains_key(key@),
            },
    {
        let ghost before = self.listed();
        let ghost new_entry = (key@, value.deep_view());
        proof {
            lemma_binding_is_insert(before, key@, value.deep_view());
        }
        match self.find(key.as_str()) {
            Some(i) => {
                proof {
                    lemma_position_of(before, key@);
                }
                self.entries.push((key, value));
                let (_, had) = self.entries.swap_remove(i);
                assert(self.listed() =~= before.update(i as int, new_entry));
                Some(had)
            },
            None => {
                self.entries.push((key, value));
                assert(self.listed() =~= before.push(new_entry));
                None
            },
        }
    }

    /// Takes `key` out of the mapping. Returns the entry that it had.
    pub fn remove_entry(&mut self, key: &str) -> (r: Option<(String, V)>)
        ensures
            final(self).deep_view() == old(self).deep_view().remove(key@),
            match r {
                Some(e) => e.0@ == key@ && old(self).deep_view().contains_key(key@) && old(
                    self,
                ).deep_view()[key@] == e.1.deep_view(),
                None => !old(self).deep_view().contains_key(key@),
            },
    {
        let ghost before = self.listed();
        let first = match self.find(key) {
            Some(i) => {
                let e = self.entries.remove(i);
                proof {
                    lemma_position_of(before, key@);
                    assert(self.listed() =~= without_key(before, key@));
                    assert forall|other: Text| other != key@ implies lookup(self.listed(), other)
                        == lookup(before, other) by {
                        lemma_lookup_after_removal(before, key@, other);
                    }
                }
                e
            },
            None => {
                assert(self.deep_view() =~= old(self).deep_view().remove(key@));
                return None;
            },
        };
        // Entries that the first one hid go as well.
        loop
            invariant
                forall|other: Text|
                    other != key@ ==> lookup(self.listed(), other) == lookup(before, other),
            ensures
                lookup(self.listed(), key@) is None,
                forall|other: Text|
                    other != key@ ==> lookup(self.listed(), other) == lookup(before, other),
            decreases self.entries@.len(),
        {
            match self.find(key) {
                Some(i) => {
                    let ghost now = self.listed();
                    self.entries.remove(i);
                    proof {
                        lemma_position_of(now, key@);
                        assert(self.listed() =~= without_key(now, key@));
                        assert forall|other: Text| other != key@ implies lookup(
                            self.listed(),
                            other,
                        ) == lookup(before, other) by {
                            lemma_lookup_after_removal(now, key@, other);
                        }
                    }
                },
                None => {
                    break;
                },
            }
        }
        assert(self.deep_view() =~= old(self).deep_view().remove(key@));
        Some(first)
    }
}

} // verus!
