//! The bridge that lifts a blocking tenant into the async trait set: it holds
//! the tenant behind an `Arc` so each call can hand a clone of the handle to
//! a blocking task.

use vstd::prelude::*;

verus! {

/// A shared handle on a blocking tenant, for use from async code.
pub struct SyncToAsync<T> {
    inner: std::sync::Arc<T>,
}

impl<T> SyncToAsync<T> {
    /// The wrapped tenant.
    pub closed spec fn wrapped(&self) -> T {
        *self.inner
    }

    /// Wrap a tenant.
    pub fn new(inner: T) -> (s: Self)
        ensures
            s.wrapped() == inner,
    {
        SyncToAsync { inner: std::sync::Arc::new(inner) }
    }

    /// Wrap an already-shared tenant.
    pub fn from_arc(inner: std::sync::Arc<T>) -> (s: Self)
        ensures
            s.wrapped() == *inner,
    {
        SyncToAsync { inner }
    }

    /// Borrow the wrapped tenant.
    pub fn inner(&self) -> (r: &T)
        ensures
            *r == self.wrapped(),
    {
        &self.inner
    }

    /// The shared handle, for handing to a blocking task.
    pub fn shared(&self) -> (r: &std::sync::Arc<T>)
        ensures
            **r == self.wrapped(),
    {
        &self.inner
    }
}

} // verus!
