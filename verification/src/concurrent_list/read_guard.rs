use vstd::prelude::*;

verus! {

/// Shared access to one slot of a chunk, for as long as the chunk is borrowed.
pub struct ChunkReadGuard<'a, T> {
    inner_lock: &'a Option<T>,
}

impl<'a, T> View for ChunkReadGuard<'a, T> {
    type V = Option<T>;

    /// What the slot holds: a value, or nothing for an empty or tombstoned slot.
    closed spec fn view(&self) -> Option<T> {
        *self.inner_lock
    }
}

impl<'a, T> ChunkReadGuard<'a, T> {
    pub fn from_rwlock(inner_lock: &'a Option<T>) -> (guard: Self)
        ensures
            guard@ == *inner_lock,
    {
        Self { inner_lock }
    }

    /// Another name for `from_rwlock`.
    pub fn from_rwlock_read(inner_lock: &'a Option<T>) -> (guard: Self)
        ensures
            guard@ == *inner_lock,
    {
        Self::from_rwlock(inner_lock)
    }

    pub fn deref_option(&self) -> (slot: &'a Option<T>)
        ensures
            *slot == self@,
    {
        self.inner_lock
    }

    /// Whether the slot holds a value.
    pub fn is_some(&self) -> (b: bool)
        ensures
            b == self@.is_some(),
    {
        self.inner_lock.is_some()
    }

    /// The value in the slot. The slot must hold one.
    pub fn deref(&self) -> (value: &'a T)
        requires
            self@.is_some(),
        ensures
            *value == self@.unwrap(),
    {
        self.inner_lock.as_ref().unwrap()
    }
}

} // verus!
