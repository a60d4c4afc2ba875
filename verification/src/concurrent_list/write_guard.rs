use vstd::prelude::*;

verus! {

/// Exclusive access to one slot of a chunk. What is in the slot when the guard
/// is released is what the chunk holds from then on.
pub struct ChunkWriteGuard<'a, T> {
    pub inner_lock: &'a mut Option<T>,
}

impl<'a, T> View for ChunkWriteGuard<'a, T> {
    type V = Option<T>;

    /// What the slot holds at this moment.
    open spec fn view(&self) -> Option<T> {
        *self.inner_lock
    }
}

impl<'a, T> ChunkWriteGuard<'a, T> {
    pub fn from_rwlock(inner_lock: &'a mut Option<T>) -> (guard: Self)
        ensures
            guard@ == *old(inner_lock),
            *final(guard.inner_lock) == *final(inner_lock),
    {
        Self { inner_lock }
    }

    pub fn deref_option(&self) -> (slot: &Option<T>)
        ensures
            *slot == self@,
    {
        &*self.inner_lock
    }

    pub fn deref_option_mut(&mut self) -> (slot: &mut Option<T>)
        ensures
            *slot == old(self)@,
            final(self)@ == *final(slot),
            *final(final(self).inner_lock) == *final(old(self).inner_lock),
    {
        &mut *self.inner_lock
    }

    /// The value in the slot. The slot must hold one.
    pub fn deref(&self) -> (value: &T)
        requires
            self@.is_some(),
        ensures
            *value == self@.unwrap(),
    {
        self.inner_lock.as_ref().unwrap()
    }

    /// Empties the slot and hands out what it held.
    pub fn take(&mut self) -> (previous: Option<T>)
        ensures
            previous == old(self)@,
            final(self)@.is_none(),
            *final(final(self).inner_lock) == *final(old(self).inner_lock),
    {
        let mut result = None;
        std::mem::swap(&mut *self.inner_lock, &mut result);
        result
    }
}

} // verus!
