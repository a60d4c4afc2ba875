use std::collections::HashMap;
use vstd::prelude::*;
use vstd::std_specs::iter::IteratorSpec;

use crate::outside::fresh_uuid;

verus! {

broadcast use vstd::std_specs::hash::group_hash_axioms;

/// `pairs` lists the entries of `map`, each once.
spec fn lists<'a, T>(map: Map<u128, T>, pairs: Seq<(&'a u128, &'a T)>) -> bool {
    &&& pairs.no_duplicates()
    &&& pairs.len() == map.dom().len()
    &&& forall|i: int|
        #![trigger map.contains_key(*pairs[i].0)]
        0 <= i < pairs.len() ==> map.contains_key(*pairs[i].0) && map[*pairs[i].0] == *pairs[i].1
    &&& forall|k: u128| #[trigger] map.contains_key(k) ==> pairs.contains((&k, &map[k]))
}

/// Entries under 128-bit identifiers: looked up, listed, created, replaced
/// and removed by identifier.
pub struct CrudStore<T: Clone> {
    entries: HashMap<u128, T>,
}

impl<T: Clone> View for CrudStore<T> {
    type V = Map<u128, T>;

    closed spec fn view(&self) -> Map<u128, T> {
        self.entries@
    }
}

impl<T: Clone> Default for CrudStore<T> {
    fn default() -> (store: Self)
        ensures
            store@ == Map::<u128, T>::empty(),
    {
        Self { entries: HashMap::new() }
    }
}

impl<T: Clone> CrudStore<T> {
    /// An empty store.
    pub fn new() -> (store: Self)
        ensures
            store@ == Map::<u128, T>::empty(),
    {
        Self { entries: HashMap::new() }
    }

    /// A store never holds infinitely many entries.
    pub proof fn lemma_finite(&self)
        ensures
            self@.dom().finite(),
    {
    }

    /// A copy of the entry under `uuid`, if there is one.
    pub fn get(&self, uuid: u128) -> (entry: Option<T>)
        ensures
            entry.is_some() == self@.contains_key(uuid),
            entry.is_some() ==> cloned(self@[uuid], entry.unwrap()),
    {
        match self.entries.get(&uuid) {
            None => None,
            Some(entry) => Some(entry.clone()),
        }
    }

    /// Whether there is an entry under `uuid`.
    pub fn contains(&self, uuid: u128) -> (found: bool)
        ensures
            found == self@.contains_key(uuid),
    {
        self.entries.contains_key(&uuid)
    }

    /// How many entries there are.
    pub fn len(&self) -> (len: usize)
        ensures
            len == self@.dom().len(),
    {
        self.entries.len()
    }

    /// A copy of every entry with its identifier, each identifier once, in
    /// no particular order.
    pub fn get_all(&self) -> (all: Vec<(u128, T)>)
        ensures
            all@.len() == self@.dom().len(),
            forall|i: int|
                0 <= i < all@.len() ==> self@.contains_key((#[trigger] all@[i]).0) && cloned(
                    self@[all@[i].0],
                    all@[i].1,
                ),
            forall|i: int, j: int|
                0 <= i < j < all@.len() ==> (#[trigger] all@[i]).0 != (#[trigger] all@[j]).0,
            forall|k: u128|
                self@.contains_key(k) ==> exists|i: int|
                    0 <= i < all@.len() && (#[trigger] all@[i]).0 == k,
    {
        let mut all: Vec<(u128, T)> = Vec::new();
        let iter = self.entries.iter();
        let ghost pairs = iter.remaining();
        for entry in it: iter
            invariant
                pairs == it.seq(),
                lists(self.entries@, pairs),
                all@.len() == it.index(),
                forall|i: int|
                    0 <= i < all@.len() ==> (#[trigger] all@[i]).0 == *pairs[i].0 && cloned(
                        *pairs[i].1,
                        all@[i].1,
                    ),
        {
            let (key, value) = entry;
            all.push((*key, value.clone()));
        }
        proof {
            assert forall|i: int, j: int| 0 <= i < j < all@.len() implies (#[trigger] all@[i]).0
                != (#[trigger] all@[j]).0 by {
                assert(self.entries@.contains_key(*pairs[i].0));
                assert(self.entries@.contains_key(*pairs[j].0));
                if all@[i].0 == all@[j].0 {
                    assert(pairs[i] == pairs[j]);
                }
            }
            assert forall|k: u128| self@.contains_key(k) implies exists|i: int|
                0 <= i < all@.len() && (#[trigger] all@[i]).0 == k by {
                assert(pairs.contains((&k, &self.entries@[k])));
                let i = choose|i: int| 0 <= i < pairs.len() && pairs[i] == (&k, &self.entries@[k]);
                assert(all@[i].0 == k);
            }
            assert forall|i: int| 0 <= i < all@.len() implies self@.contains_key(
                (#[trigger] all@[i]).0,
            ) && cloned(self@[all@[i].0], all@[i].1) by {
                assert(self.entries@.contains_key(*pairs[i].0));
            }
        }
        all
    }

    /// Removes the entry under `uuid`, if there is one.
    pub fn remove(&mut self, uuid: u128)
        ensures
            final(self)@ == old(self)@.remove(uuid),
    {
        self.entries.remove(&uuid);
    }

    /// Puts `entry` under `uuid`, in place of what was there.
    pub fn insert(&mut self, uuid: u128, entry: T)
        ensures
            final(self)@ == old(self)@.insert(uuid, entry),
    {
        self.entries.insert(uuid, entry);
    }

    /// Puts `entry` under a fresh random identifier and returns the
    /// identifier. Which one it is cannot be foretold.
    pub fn create(&mut self, entry: T) -> (uuid: u128)
        ensures
            final(self)@ == old(self)@.insert(uuid, entry),
    {
        let uuid = fresh_uuid();
        self.insert(uuid, entry);
        uuid
    }

    /// Replaces the entry under `uuid` by `entry`; does nothing if there is
    /// no entry under `uuid`.
    pub fn update(&mut self, uuid: u128, entry: T)
        ensures
            final(self)@ == (if old(self)@.contains_key(uuid) {
                old(self)@.insert(uuid, entry)
            } else {
                old(self)@
            }),
    {
        if self.entries.contains_key(&uuid) {
            self.entries.insert(uuid, entry);
        }
    }

    /// How many entries `predicate` holds of. Stated for any predicate: there
    /// is a set of identifiers of that size, the ones at which the predicate
    /// answered yes, and at every other entry it answered no.
    pub fn count<F: Fn(&T) -> bool>(&self, predicate: F) -> (n: usize)
        requires
            forall|t: &T| #[trigger] predicate.requires((t,)),
        ensures
            exists|hit: Set<u128>|
                {
                    &&& hit.finite()
                    &&& hit.len() == n
                    &&& hit.subset_of(self@.dom())
                    &&& forall|k: u128| #[trigger]
                        self@.contains_key(k) ==> predicate.ensures((&self@[k],), hit.contains(k))
                },
    {
        let mut n: usize = 0;
        let total = self.entries.len();
        let ghost mut hit: Set<u128> = Set::empty();
        let iter = self.entries.iter();
        let ghost pairs = iter.remaining();
        for entry in it: iter
            invariant
                forall|t: &T| #[trigger] predicate.requires((t,)),
                total == pairs.len(),
                pairs == it.seq(),
                lists(self.entries@, pairs),
                hit.finite(),
                hit.len() == n,
                n <= it.index(),
                forall|k: u128|
                    hit.contains(k) ==> exists|i: int|
                        0 <= i < it.index() && *(#[trigger] pairs[i]).0 == k,
                forall|i: int|
                    0 <= i < it.index() ==> predicate.ensures(
                        ((#[trigger] pairs[i]).1,),
                        hit.contains(*pairs[i].0),
                    ),
        {
            let ghost at = it.index() as int;
            let (key, value) = entry;
            proof {
                assert(self.entries@.contains_key(*pairs[at].0));
                if hit.contains(*key) {
                    let i = choose|i: int| 0 <= i < at && *(#[trigger] pairs[i]).0 == *key;
                    assert(self.entries@.contains_key(*pairs[i].0));
                    assert(pairs[i] == pairs[at]);
                }
                assert forall|i: int| 0 <= i < at implies *(#[trigger] pairs[i]).0 != *key by {
                    assert(self.entries@.contains_key(*pairs[i].0));
                    if *pairs[i].0 == *key {
                        assert(pairs[i] == pairs[at]);
                    }
                }
            }
            if predicate(value) {
                n = n + 1;
                proof {
                    hit = hit.insert(*key);
                }
            }
        }
        proof {
            assert forall|k: u128| #[trigger] self@.contains_key(k) implies predicate.ensures(
                (&self@[k],),
                hit.contains(k),
            ) by {
                assert(pairs.contains((&k, &self.entries@[k])));
                let i = choose|i: int| 0 <= i < pairs.len() && pairs[i] == (&k, &self.entries@[k]);
                assert(predicate.ensures((pairs[i].1,), hit.contains(*pairs[i].0)));
            }
            assert forall|k: u128| hit.contains(k) implies self@.dom().contains(k) by {
                let i = choose|i: int| 0 <= i < pairs.len() && *(#[trigger] pairs[i]).0 == k;
                assert(self.entries@.contains_key(*pairs[i].0));
            }
        }
        n
    }
}

} // verus!
