use vstd::prelude::*;

use crate::concurrent_list::{ChunkReadGuard, ChunkRef, ConcurrentList};

verus! {

/// Turns a walk around: stepping a `ReverseIterator` forward steps what it
/// holds backward.
pub struct ReverseIterator<T> {
    t: T,
}

impl<T> View for ReverseIterator<T> {
    type V = T;

    /// What is being walked backward.
    closed spec fn view(&self) -> T {
        self.t
    }
}

impl<T> ReverseIterator<T> {
    pub fn new(t: T) -> (reversed: Self)
        ensures
            reversed@ == t,
    {
        Self { t }
    }

    pub fn into_inner(self) -> (t: T)
        ensures
            t == self@,
    {
        self.t
    }

    pub fn inner(&self) -> (t: &T)
        ensures
            *t == self@,
    {
        &self.t
    }

    pub fn inner_mut(&mut self) -> (t: &mut T)
        ensures
            *t == old(self)@,
            final(self)@ == *final(t),
    {
        &mut self.t
    }
}

impl<T: Default> Default for ReverseIterator<T> {
    fn default() -> Self {
        Self { t: Default::default() }
    }
}

impl ReverseIterator<ChunkRef> {
    /// One step: the cursor steps backward, as `ChunkRef::next_back` says.
    pub fn next<'a, T>(&mut self, list: &'a ConcurrentList<T>) -> (guard: Option<
        ChunkReadGuard<'a, T>,
    >)
        requires
            list.wf(),
            old(self)@@.wf(list.nodes()),
        ensures
            final(self)@@.wf(list.nodes()),
            guard.is_some() == (old(self)@@.prev_index(list@.len()) >= 0),
            guard.is_none() ==> final(self)@@ == old(self)@@,
            guard.is_some() ==> {
                &&& old(self)@@.prev_index(list@.len()) < list@.len()
                &&& guard.unwrap()@ == list@[old(self)@@.prev_index(list@.len())]
                &&& final(self)@@.global_index == old(self)@@.prev_index(list@.len())
                &&& !final(self)@@.item_owed
            },
    {
        self.t.next_back(list)
    }
}

} // verus!
