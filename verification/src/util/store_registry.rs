use std::collections::HashMap;
use vstd::prelude::*;

verus! {

broadcast use vstd::std_specs::hash::group_hash_axioms;

/// The stores of a broker, one of each kind at most. A kind is named by a
/// number that the caller picks.
pub struct StoreRegistry<S> {
    stores: HashMap<u64, S>,
}

impl<S> View for StoreRegistry<S> {
    type V = Map<u64, S>;

    /// The stores by kind.
    closed spec fn view(&self) -> Map<u64, S> {
        self.stores@
    }
}

impl<S> Default for StoreRegistry<S> {
    fn default() -> (registry: Self)
        ensures
            registry@ == Map::<u64, S>::empty(),
    {
        Self { stores: HashMap::new() }
    }
}

impl<S> StoreRegistry<S> {
    /// A registry without stores.
    pub fn new() -> (registry: Self)
        ensures
            registry@ == Map::<u64, S>::empty(),
    {
        Self { stores: HashMap::new() }
    }

    /// Whether a store of kind `kind` is registered.
    pub fn contains(&self, kind: u64) -> (found: bool)
        ensures
            found == self@.contains_key(kind),
    {
        self.stores.contains_key(&kind)
    }

    /// Registers `store` as the store of kind `kind`. There must be none of
    /// that kind yet.
    pub fn add(&mut self, kind: u64, store: S)
        requires
            !old(self)@.contains_key(kind),
        ensures
            final(self)@ == old(self)@.insert(kind, store),
    {
        self.stores.insert(kind, store);
    }

    /// Registers `store` as the store of kind `kind`, unless there is one
    /// of that kind already: then `store` comes back.
    pub fn try_add(&mut self, kind: u64, store: S) -> (refused: Option<S>)
        ensures
            refused.is_some() == old(self)@.contains_key(kind),
            refused matches Some(s) ==> s == store && final(self)@ == old(self)@,
            refused.is_none() ==> final(self)@ == old(self)@.insert(kind, store),
    {
        if self.stores.contains_key(&kind) {
            Some(store)
        } else {
            self.add(kind, store);
            None
        }
    }

    /// The store of kind `kind`, which must be registered.
    pub fn get(&self, kind: u64) -> (store: &S)
        requires
            self@.contains_key(kind),
        ensures
            *store == self@[kind],
    {
        self.get_option(kind).unwrap()
    }

    /// The store of kind `kind`, if one is registered.
    pub fn get_option(&self, kind: u64) -> (store: Option<&S>)
        ensures
            store.is_some() == self@.contains_key(kind),
            store matches Some(s) ==> *s == self@[kind],
    {
        self.stores.get(&kind)
    }

    /// Takes the store of kind `kind` out of the registry, if one is
    /// registered.
    pub fn extract(&mut self, kind: u64) -> (store: Option<S>)
        ensures
            store.is_some() == old(self)@.contains_key(kind),
            store matches Some(s) ==> s == old(self)@[kind],
            final(self)@ == old(self)@.remove(kind),
    {
        self.stores.remove(&kind)
    }
}

} // verus!
