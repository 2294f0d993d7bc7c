//! Extension adapters on any raw-contract backend: wrapping it with the TTL
//! overlay, and moving it behind a shared, lock-protected handle.

use vstd::prelude::*;
use std::sync::Arc;
use vstd::rwlock::RwLock;
use crate::error::Error;
use crate::ttl_wrap::{wrap_inv, wrap_view, TtlWrap};
use crate::types::{Raw, Store, Ttl, TtlStore};

verus! {

/// Adapters available on every raw-contract backend.
pub trait StoreExt: Store {
    /// Wraps this backend with the TTL overlay.
    fn into_ttl(self) -> (r: TtlWrap<Self>)
        ensures
            r.inv() <==> (self.inv() && wrap_inv(self.sv())),
            r.sv() == wrap_view(self.sv()),
    ;

    /// Moves this backend behind a shared, lock-protected handle.
    fn into_shared(self) -> (r: SharedStore<Self>)
        requires
            self.inv(),
        ensures
            r.wf(),
    ;
}

impl<S: Store> StoreExt for S {
    fn into_ttl(self) -> (r: TtlWrap<S>) {
        TtlWrap::new(self)
    }

    fn into_shared(self) -> (r: SharedStore<S>) {
        SharedStore::new(self)
    }
}

/// Relies on `Arc::clone`: the returned handle refers to the same shared
/// allocation as the argument.
#[verifier::external_body]
fn arc_clone<T>(a: &Arc<T>) -> (r: Arc<T>)
    ensures
        r == *a,
{
    Arc::clone(a)
}

/// A reference-counted, lock-protected handle to a backend, so that several
/// façades or overlays can drive one store concurrently.
///
/// The lock serializes whole operations and maintains the backend's
/// invariant across them. What a result reveals about the backend's state
/// depends on how concurrent operations interleave, so these contracts
/// promise only what holds of every outcome.
#[verifier::reject_recursive_types(T)]
pub struct SharedStore<T: Store> {
    inner: Arc<RwLock<T, spec_fn(T) -> bool>>,
}

impl<T: Store> SharedStore<T> {
    /// The handle's lock keeps exactly the backend invariant.
    pub closed spec fn wf(&self) -> bool {
        (*self.inner).pred() == (|t: T| t.inv())
    }

    /// Puts a backend behind a fresh shared handle.
    pub fn new(store: T) -> (s: SharedStore<T>)
        requires
            store.inv(),
        ensures
            s.wf(),
    {
        SharedStore { inner: Arc::new(RwLock::new(store, Ghost(|t: T| t.inv()))) }
    }

    /// A second handle to the same backend.
    pub fn share(&self) -> (s: SharedStore<T>)
        requires
            self.wf(),
        ensures
            s.wf(),
    {
        SharedStore { inner: arc_clone(&self.inner) }
    }

    /// Upsert through the shared handle; always succeeds.
    pub fn insert(&self, key: Raw, value: Raw) -> (r: Result<(), Error>)
        requires
            self.wf(),
        ensures
            r is Ok,
    {
        let (mut st, handle) = self.inner.acquire_write();
        let r = st.insert(key, value);
        handle.release_write(st);
        r
    }

    /// Lookup through the shared handle: whatever the interleaving, the
    /// result is a value, `NotFound`, or `Expired`.
    pub fn get(&self, key: &Raw, now: Ttl) -> (r: Result<Raw, Error>)
        requires
            self.wf(),
        ensures
            r is Ok || r == Err::<Raw, Error>(Error::NotFound) || r == Err::<Raw, Error>(
                Error::Expired,
            ),
    {
        let (mut st, handle) = self.inner.acquire_write();
        let r = st.get(key, now);
        handle.release_write(st);
        r
    }

    /// Delete through the shared handle; always succeeds.
    pub fn remove(&self, key: &Raw) -> (r: Result<(), Error>)
        requires
            self.wf(),
        ensures
            r is Ok,
    {
        let (mut st, handle) = self.inner.acquire_write();
        let r = st.remove(key);
        handle.release_write(st);
        r
    }
}

impl<T: TtlStore> SharedStore<T> {
    /// Expiring upsert through the shared handle; always succeeds.
    pub fn insert_ttl(&self, key: Raw, ttl: Ttl, value: Raw) -> (r: Result<(), Error>)
        requires
            self.wf(),
        ensures
            r is Ok,
    {
        let (mut st, handle) = self.inner.acquire_write();
        let r = st.insert_ttl(key, ttl, value);
        handle.release_write(st);
        r
    }

    /// Expiry update through the shared handle: whatever the interleaving,
    /// it succeeds or reports `NotFound`.
    pub fn touch(&self, key: &Raw, ttl: Ttl) -> (r: Result<(), Error>)
        requires
            self.wf(),
        ensures
            r is Ok || r == Err::<(), Error>(Error::NotFound),
    {
        let (mut st, handle) = self.inner.acquire_write();
        let r = st.touch(key, ttl);
        handle.release_write(st);
        r
    }
}

} // verus!
