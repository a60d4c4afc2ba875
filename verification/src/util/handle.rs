use std::sync::Arc;
use vstd::prelude::*;
use vstd::rwlock::{ReadHandle, RwLock, WriteHandle};

verus! {

/// A value behind a read-write lock that many owners share. Cloning a
/// handle gives another owner of the same value.
///
/// What the lock guards may change between any two accesses, so an access
/// promises nothing about the value it finds. An access is given back by
/// hand: a read with `ReadHandle::release_read`, a write with
/// `WriteHandle::release_write`; until then other owners wait.
#[verifier::reject_recursive_types(T)]
pub struct Handle<T>(pub Arc<RwLock<T, spec_fn(T) -> bool>>);

/// Another owner of what `shared` owns: `Arc::clone`.
#[verifier::external_body]
fn share<T>(shared: &Arc<RwLock<T, spec_fn(T) -> bool>>) -> (other: Arc<
    RwLock<T, spec_fn(T) -> bool>,
>)
    ensures
        other == *shared,
{
    shared.clone()
}

impl<T> Clone for Handle<T> {
    fn clone(&self) -> (other: Self)
        ensures
            other == *self,
    {
        Self(share(&self.0))
    }
}

impl<T: Default> Default for Handle<T> {
    fn default() -> Self {
        Self::from_value(T::default())
    }
}

impl<T: Default> Handle<T> {
    /// A handle on the default value of `T`, behind a lock of its own that
    /// takes every value of `T`.
    pub fn new() -> (handle: Self)
        ensures
            handle.takes_any(),
    {
        Self::from_value(T::default())
    }
}

impl<T> Handle<T> {
    /// Whether the lock takes every value of `T`: whoever has sole access
    /// may then put back whatever it likes. Every owner of one value sees
    /// the same lock, so this holds of all of them or of none.
    pub open spec fn takes_any(&self) -> bool {
        forall|v: T| #[trigger] self.0.inv(v)
    }

    /// A handle on `value`, behind a lock of its own that takes every value
    /// of `T`.
    pub fn from_value(value: T) -> (handle: Self)
        ensures
            handle.takes_any(),
    {
        Self(Arc::new(RwLock::new(value, Ghost(|v: T| true))))
    }

    /// Shared access to the value, once no one is writing it.
    pub fn get(&self) -> (guard: ReadHandle<'_, T, spec_fn(T) -> bool>)
        ensures
            guard.rwlock() == *self.0,
    {
        self.0.acquire_read()
    }

    /// Sole access to the value, once no one else holds it: the value and
    /// the handle to put one back with.
    pub fn get_mut(&self) -> (guard: (T, WriteHandle<'_, T, spec_fn(T) -> bool>))
        ensures
            guard.1.rwlock() == *self.0,
    {
        self.0.acquire_write()
    }
}

} // verus!
