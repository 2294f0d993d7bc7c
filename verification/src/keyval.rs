//! The typed façade: converts typed keys and values to and from the raw
//! byte representation and delegates to whichever raw-contract
//! implementation it was built around.

use vstd::prelude::*;
use crate::error::Error;
use crate::keyval_ext::SharedStore;
use crate::types::{fresh_at, Entry, Key, Raw, Store, Ttl, TtlStore, Value};

verus! {

/// The typed front door around a raw-contract store: a plain backend or a
/// TTL-overlaid one, the façade is agnostic.
pub struct KeyVal<S> {
    store: S,
}

impl<S: Store> KeyVal<S> {
    /// The wrapped store's entry map.
    pub closed spec fn sv(&self) -> Map<Seq<u8>, Entry> {
        self.store.sv()
    }

    /// The wrapped store's well-formedness.
    pub closed spec fn inv(&self) -> bool {
        self.store.inv()
    }

    /// Wraps a store.
    pub fn new(store: S) -> (kv: KeyVal<S>)
        ensures
            kv.inv() <==> store.inv(),
            kv.sv() == store.sv(),
    {
        KeyVal { store }
    }

    /// Typed upsert: the key and value are converted to raw bytes and the
    /// entry is stored without an expiry.
    pub fn insert<K: Key, V: Value>(&mut self, key: K, value: V) -> (r: Result<(), Error>)
        requires
            old(self).inv(),
        ensures
            final(self).inv(),
            r is Ok,
            final(self).sv() == old(self).sv().insert(
                key.kenc(),
                (Entry { expiry: None, data: value.venc() }),
            ),
    {
        let kraw = match key.to_raw() {
            Ok(k) => k,
            Err(e) => {
                proof {
                    assert(false);
                }
                return Err(e);
            },
        };
        let vraw = match value.to_raw() {
            Ok(v) => v,
            Err(e) => {
                proof {
                    assert(false);
                }
                return Err(e);
            },
        };
        self.store.insert(kraw, vraw)
    }

    /// Typed lookup at clock reading `now`: raw bytes found under the key
    /// are converted back to the value type, and a failed conversion is
    /// surfaced as that type's decode error.
    pub fn get<K: Key, V: Value>(&mut self, key: K, now: Ttl) -> (r: Result<V, Error>)
        requires
            old(self).inv(),
        ensures
            final(self).inv(),
            !old(self).sv().contains_key(key.kenc()) ==> r == Err::<V, Error>(Error::NotFound)
                && final(self).sv() == old(self).sv(),
            old(self).sv().contains_key(key.kenc()) && fresh_at(
                old(self).sv()[key.kenc()],
                now,
            ) ==> ({
                let data = old(self).sv()[key.kenc()].data;
                final(self).sv() == old(self).sv() && (V::vdec_ok(data) ==> (r matches Ok(v)
                    && v@ == V::vdec_model(data))) && (!V::vdec_ok(data) ==> r == Err::<
                    V,
                    Error,
                >(V::vdec_err()))
            }),
            old(self).sv().contains_key(key.kenc()) && !fresh_at(
                old(self).sv()[key.kenc()],
                now,
            ) ==> r == Err::<V, Error>(Error::Expired) && final(self).sv() == old(
                self,
            ).sv().remove(key.kenc()),
    {
        let kraw = match key.to_raw() {
            Ok(k) => k,
            Err(e) => {
                proof {
                    assert(false);
                }
                return Err(e);
            },
        };
        match self.store.get(&kraw, now) {
            Ok(raw) => V::from_raw(raw),
            Err(e) => Err(e),
        }
    }

    /// Typed delete: idempotent, like the raw contract's.
    pub fn remove<K: Key>(&mut self, key: &K) -> (r: Result<(), Error>)
        requires
            old(self).inv(),
        ensures
            final(self).inv(),
            r is Ok,
            final(self).sv() == old(self).sv().remove(key.kenc()),
    {
        let kraw = match key.to_raw() {
            Ok(k) => k,
            Err(e) => {
                proof {
                    assert(false);
                }
                return Err(e);
            },
        };
        self.store.remove(&kraw)
    }
}

impl<S: TtlStore> KeyVal<S> {
    /// Typed upsert with an expiry.
    pub fn insert_ttl<K: Key, V: Value>(&mut self, key: K, value: V, ttl: Ttl) -> (r: Result<
        (),
        Error,
    >)
        requires
            old(self).inv(),
        ensures
            final(self).inv(),
            r is Ok,
            final(self).sv() == old(self).sv().insert(
                key.kenc(),
                (Entry { expiry: Some(ttl), data: value.venc() }),
            ),
    {
        let kraw = match key.to_raw() {
            Ok(k) => k,
            Err(e) => {
                proof {
                    assert(false);
                }
                return Err(e);
            },
        };
        let vraw = match value.to_raw() {
            Ok(v) => v,
            Err(e) => {
                proof {
                    assert(false);
                }
                return Err(e);
            },
        };
        self.store.insert_ttl(kraw, ttl, vraw)
    }

    /// Typed expiry update: only the expiry changes, the stored value stays.
    pub fn touch<K: Key>(&mut self, key: K, ttl: Ttl) -> (r: Result<(), Error>)
        requires
            old(self).inv(),
        ensures
            final(self).inv(),
            old(self).sv().contains_key(key.kenc()) ==> r is Ok && final(self).sv() == old(
                self,
            ).sv().insert(
                key.kenc(),
                (Entry { expiry: Some(ttl), data: old(self).sv()[key.kenc()].data }),
            ),
            !old(self).sv().contains_key(key.kenc()) ==> r == Err::<(), Error>(Error::NotFound)
                && final(self).sv() == old(self).sv(),
    {
        let kraw = match key.to_raw() {
            Ok(k) => k,
            Err(e) => {
                proof {
                    assert(false);
                }
                return Err(e);
            },
        };
        self.store.touch(&kraw, ttl)
    }
}

/// The typed façade over a shared, lock-protected backend: several handles
/// may drive one store, so these contracts, like the shared handle's own,
/// promise only what holds of every interleaving.
impl<S: TtlStore> KeyVal<SharedStore<S>> {
    /// The shared handle is well formed.
    pub closed spec fn shared_wf(&self) -> bool {
        self.store.wf()
    }

    /// Wraps a shared handle.
    pub fn new_shared(store: SharedStore<S>) -> (kv: KeyVal<SharedStore<S>>)
        requires
            store.wf(),
        ensures
            kv.shared_wf(),
    {
        KeyVal { store }
    }

    /// A second façade over the same backend.
    pub fn share(&self) -> (kv: KeyVal<SharedStore<S>>)
        requires
            self.shared_wf(),
        ensures
            kv.shared_wf(),
    {
        KeyVal { store: self.store.share() }
    }

    /// Typed upsert through the shared handle; always succeeds.
    pub fn insert<K: Key, V: Value>(&self, key: K, value: V) -> (r: Result<(), Error>)
        requires
            self.shared_wf(),
        ensures
            r is Ok,
    {
        let kraw = match key.to_raw() {
            Ok(k) => k,
            Err(e) => {
                proof {
                    assert(false);
                }
                return Err(e);
            },
        };
        let vraw = match value.to_raw() {
            Ok(v) => v,
            Err(e) => {
                proof {
                    assert(false);
                }
                return Err(e);
            },
        };
        self.store.insert(kraw, vraw)
    }

    /// Typed lookup through the shared handle: whatever the interleaving,
    /// the result is a decoded value, `NotFound`, `Expired`, or the value
    /// type's decode error.
    pub fn get<K: Key, V: Value>(&self, key: K, now: Ttl) -> (r: Result<V, Error>)
        requires
            self.shared_wf(),
        ensures
            (r matches Ok(_)) || r == Err::<V, Error>(Error::NotFound) || r == Err::<V, Error>(
                Error::Expired,
            ) || r == Err::<V, Error>(V::vdec_err()),
    {
        let kraw = match key.to_raw() {
            Ok(k) => k,
            Err(e) => {
                proof {
                    assert(false);
                }
                return Err(e);
            },
        };
        match self.store.get(&kraw, now) {
            Ok(raw) => V::from_raw(raw),
            Err(e) => Err(e),
        }
    }

    /// Typed delete through the shared handle; always succeeds.
    pub fn remove<K: Key>(&self, key: &K) -> (r: Result<(), Error>)
        requires
            self.shared_wf(),
        ensures
            r is Ok,
    {
        let kraw = match key.to_raw() {
            Ok(k) => k,
            Err(e) => {
                proof {
                    assert(false);
                }
                return Err(e);
            },
        };
        self.store.remove(&kraw)
    }

    /// Typed expiring upsert through the shared handle; always succeeds.
    pub fn insert_ttl<K: Key, V: Value>(&self, key: K, value: V, ttl: Ttl) -> (r: Result<
        (),
        Error,
    >)
        requires
            self.shared_wf(),
        ensures
            r is Ok,
    {
        let kraw = match key.to_raw() {
            Ok(k) => k,
            Err(e) => {
                proof {
                    assert(false);
                }
                return Err(e);
            },
        };
        let vraw = match value.to_raw() {
            Ok(v) => v,
            Err(e) => {
                proof {
                    assert(false);
                }
                return Err(e);
            },
        };
        self.store.insert_ttl(kraw, ttl, vraw)
    }

    /// Typed expiry update through the shared handle: it succeeds or the key
    /// was absent at the moment the lock was held.
    pub fn touch<K: Key>(&self, key: K, ttl: Ttl) -> (r: Result<(), Error>)
        requires
            self.shared_wf(),
        ensures
            r is Ok || r == Err::<(), Error>(Error::NotFound),
    {
        let kraw = match key.to_raw() {
            Ok(k) => k,
            Err(e) => {
                proof {
                    assert(false);
                }
                return Err(e);
            },
        };
        self.store.touch(&kraw, ttl)
    }
}

} // verus!
