//! The TTL overlay: a decorator that retrofits expiration onto any backend
//! implementing only the raw contract, by storing each value inside an
//! envelope that carries an optional expiry instant.
//!
//! The overlay's read-modify-write `touch` is two backend round-trips and is
//! not atomic when the backend is shared: a concurrent `remove` or a lazy
//! eviction between the read and the write can be lost. That weakness is part
//! of the contract's design and is deliberately not papered over here.

use vstd::prelude::*;
use crate::bigendian::{
    be_bytes, from_be_at, from_be_bytes, lemma_be_bytes_len, lemma_from_be_be,
    lemma_from_be_bound, lemma_pow256_8, push_bytes, to_be_array,
};
use crate::codec::Codec;
use crate::error::Error;
use crate::types::{clone_raw, sub_vec, Entry, Raw, Store, Ttl, TtlStore};

verus! {

/// The envelope encoding: a tag byte (0: never expires, 1: expiry follows as
/// 8 big-endian bytes), then the payload.
pub open spec fn env_enc(e: Entry) -> Seq<u8> {
    match e.expiry {
        Option::None => seq![0u8] + e.data,
        Option::Some(t) => seq![1u8] + be_bytes(t as nat, 8) + e.data,
    }
}

/// Decodes an envelope, failing on a bad tag or a truncated expiry.
pub open spec fn env_dec(b: Seq<u8>) -> Option<Entry> {
    if b.len() >= 1 && b[0] == 0u8 {
        Some(Entry { expiry: None, data: b.subrange(1, b.len() as int) })
    } else if b.len() >= 9 && b[0] == 1u8 {
        Some(
            Entry {
                expiry: Some((from_be_bytes(b.subrange(1, 9)) as u64)),
                data: b.subrange(9, b.len() as int),
            },
        )
    } else {
        None
    }
}

/// The envelope encoding round-trips exactly: the on-backend representation
/// of any entry decodes back to that entry.
pub proof fn lemma_env_round_trip(e: Entry)
    ensures
        env_dec(env_enc(e)) == Some(e),
{
    let b = env_enc(e);
    match e.expiry {
        Option::None => {
            assert(b[0] == 0u8);
            assert(b.subrange(1, b.len() as int) =~= e.data);
        },
        Option::Some(t) => {
            lemma_be_bytes_len(t as nat, 8);
            lemma_pow256_8();
            assert(b[0] == 1u8);
            assert(b.subrange(1, 9) =~= be_bytes(t as nat, 8));
            lemma_from_be_be(t as nat, 8);
            assert(b.subrange(9, b.len() as int) =~= e.data);
        },
    }
}

/// The unit the overlay stores in the underlying backend: an optional expiry
/// and the caller's opaque payload.
pub struct TtlWrapItem {
    ttl: Option<Ttl>,
    data: Vec<u8>,
}

impl View for TtlWrapItem {
    type V = Entry;

    closed spec fn view(&self) -> Entry {
        Entry { expiry: self.ttl, data: self.data@ }
    }
}

impl TtlWrapItem {
    /// Builds an envelope from an expiry and a payload.
    pub fn new(ttl: Option<Ttl>, data: Vec<u8>) -> (r: TtlWrapItem)
        ensures
            r@ == (Entry { expiry: ttl, data: data@ }),
    {
        TtlWrapItem { ttl, data }
    }

    /// The envelope's expiry, if any.
    pub fn ttl(&self) -> (t: Option<Ttl>)
        ensures
            t == self@.expiry,
    {
        self.ttl
    }

    /// The envelope's payload.
    pub fn data(&self) -> (d: &Vec<u8>)
        ensures
            d@ == self@.data,
    {
        &self.data
    }
}

impl Codec for TtlWrapItem {
    open spec fn cenc(&self) -> Seq<u8> {
        env_enc(self@)
    }

    open spec fn cdec_ok(b: Seq<u8>) -> bool {
        env_dec(b) is Some
    }

    open spec fn cdec_model(b: Seq<u8>) -> Entry {
        match env_dec(b) {
            Some(e) => e,
            None => Entry { expiry: None, data: Seq::empty() },
        }
    }

    #[verifier::spinoff_prover]
    fn encode(&self) -> (r: Vec<u8>) {
        let mut out: Vec<u8> = Vec::new();
        match self.ttl {
            None => {
                out.push(0u8);
                proof {
                    assert(out@ =~= seq![0u8]);
                }
            },
            Some(t) => {
                out.push(1u8);
                let be = to_be_array::<8>(t as u128);
                proof {
                    assert(be@ == be_bytes(t as nat, 8));
                }
                push_bytes(&mut out, be.as_slice());
                proof {
                    assert(out@ =~= seq![1u8] + be_bytes(t as nat, 8));
                }
            },
        }
        let ghost head: Seq<u8> = out@;
        push_bytes(&mut out, self.data.as_slice());
        proof {
            assert(out@ == head + self.data@);
            assert(self@.data == self.data@);
            assert(self@.expiry == self.ttl);
            match self@.expiry {
                Option::None => {
                    assert(head =~= seq![0u8]);
                    assert(out@ =~= seq![0u8] + self@.data);
                },
                Option::Some(t) => {
                    assert(head =~= seq![1u8] + be_bytes(t as nat, 8));
                    assert(out@ =~= seq![1u8] + be_bytes(t as nat, 8) + self@.data);
                },
            }
            assert(out@ == env_enc(self@));
            assert(self.cenc() == env_enc(self@));
        }
        out
    }

    fn decode(b: &Vec<u8>) -> (r: Option<TtlWrapItem>) {
        if b.len() >= 1 && b[0] == 0u8 {
            let data = sub_vec(b, 1, b.len());
            Some(TtlWrapItem { ttl: None, data })
        } else if b.len() >= 9 && b[0] == 1u8 {
            let t128 = from_be_at(b.as_slice(), 1, 8);
            proof {
                lemma_from_be_bound(b@.subrange(1, 9));
                lemma_pow256_8();
            }
            let t = t128 as u64;
            let data = sub_vec(b, 9, b.len());
            Some(TtlWrapItem { ttl: Some(t), data })
        } else {
            None
        }
    }

    proof fn codec_round_trip(&self) {
        lemma_env_round_trip(self@);
    }
}

/// The entry an envelope's bytes denote; well-formed stores only ever hold
/// decodable envelopes, so the fallback entry is never reached.
pub open spec fn dec_entry(b: Seq<u8>) -> Entry {
    match env_dec(b) {
        Some(e) => e,
        None => Entry { expiry: None, data: Seq::empty() },
    }
}

/// The overlay's envelope invariant on the underlying backend's map: every
/// entry was written by the overlay, so it carries no raw-level expiry and
/// its bytes decode as an envelope. Mixing overlay and non-overlay writes on
/// one backend breaks this, and with it the overlay's reads.
pub open spec fn wrap_inv(m: Map<Seq<u8>, Entry>) -> bool {
    forall|k: Seq<u8>| #[trigger]
        m.contains_key(k) ==> m[k].expiry is None && env_dec(m[k].data) is Some
}

/// The entry map the overlay presents, obtained by decoding every envelope
/// held by the underlying backend.
pub open spec fn wrap_view(m: Map<Seq<u8>, Entry>) -> Map<Seq<u8>, Entry> {
    Map::new(|k: Seq<u8>| m.contains_key(k), |k: Seq<u8>| dec_entry(m[k].data))
}

/// Overlay transparency, insert case: writing an envelope into the backend
/// is, seen through the overlay, exactly a plain insert of the entry.
pub proof fn lemma_wrap_insert(m: Map<Seq<u8>, Entry>, k: Seq<u8>, e: Entry)
    ensures
        wrap_view(m.insert(k, (Entry { expiry: None, data: env_enc(e) }))) == wrap_view(
            m,
        ).insert(k, e),
        wrap_inv(m) ==> wrap_inv(m.insert(k, (Entry { expiry: None, data: env_enc(e) }))),
{
    lemma_env_round_trip(e);
    let raw = Entry { expiry: None, data: env_enc(e) };
    assert(wrap_view(m.insert(k, raw)) =~= wrap_view(m).insert(k, e));
    if wrap_inv(m) {
        assert forall|k2: Seq<u8>| #[trigger]
            m.insert(k, raw).contains_key(k2) implies m.insert(k, raw)[k2].expiry is None
            && env_dec(m.insert(k, raw)[k2].data) is Some by {
            if k2 != k {
                assert(m.contains_key(k2));
            }
        }
    }
}

/// Overlay transparency, remove case: deleting in the backend is, seen
/// through the overlay, exactly a plain delete.
pub proof fn lemma_wrap_remove(m: Map<Seq<u8>, Entry>, k: Seq<u8>)
    ensures
        wrap_view(m.remove(k)) == wrap_view(m).remove(k),
        wrap_inv(m) ==> wrap_inv(m.remove(k)),
{
    assert(wrap_view(m.remove(k)) =~= wrap_view(m).remove(k));
    if wrap_inv(m) {
        assert forall|k2: Seq<u8>| #[trigger]
            m.remove(k).contains_key(k2) implies m.remove(k)[k2].expiry is None && env_dec(
            m.remove(k)[k2].data,
        ) is Some by {
            assert(m.contains_key(k2));
        }
    }
}

/// An empty backend trivially satisfies the overlay invariant, so wrapping
/// a fresh backend yields a well-formed, empty overlay.
pub proof fn lemma_wrap_empty()
    ensures
        wrap_inv(Map::<Seq<u8>, Entry>::empty()),
        wrap_view(Map::<Seq<u8>, Entry>::empty()) == Map::<Seq<u8>, Entry>::empty(),
{
    assert(wrap_view(Map::<Seq<u8>, Entry>::empty()) =~= Map::<Seq<u8>, Entry>::empty());
}

/// The TTL overlay around an underlying raw-contract backend.
pub struct TtlWrap<S> {
    store: S,
}

impl<S: Store> TtlWrap<S> {
    /// Wraps a backend. The overlay presents the decoded view of whatever
    /// the backend holds; a backend whose entries were all written through
    /// an overlay satisfies the overlay invariant.
    pub fn new(store: S) -> (r: TtlWrap<S>)
        ensures
            r.inv() <==> store.inv() && wrap_inv(store.sv()),
            r.sv() == wrap_view(store.sv()),
    {
        TtlWrap { store }
    }
}

impl<S: Store> Store for TtlWrap<S> {
    closed spec fn sv(&self) -> Map<Seq<u8>, Entry> {
        wrap_view(self.store.sv())
    }

    closed spec fn inv(&self) -> bool {
        self.store.inv() && wrap_inv(self.store.sv())
    }

    fn insert(&mut self, key: Raw, value: Raw) -> (r: Result<(), Error>) {
        let item = TtlWrapItem { ttl: None, data: value };
        let ghost e = item@;
        let enc = item.encode();
        let ghost m = self.store.sv();
        proof {
            lemma_wrap_insert(m, key@, e);
        }
        self.store.insert(key, enc)
    }

    fn get(&mut self, key: &Raw, now: Ttl) -> (r: Result<Raw, Error>) {
        let ghost m = old(self).store.sv();
        match self.store.get(key, 0) {
            Err(e) => {
                proof {
                    if m.contains_key(key@) {
                        assert(m[key@].expiry is None);
                        assert(false);
                    }
                }
                Err(e)
            },
            Ok(raw) => {
                proof {
                    assert(m.contains_key(key@));
                    assert(raw@ == m[key@].data);
                }
                match TtlWrapItem::decode(&raw) {
                    None => {
                        proof {
                            assert(false);
                        }
                        Err(Error::Codec)
                    },
                    Some(item) => {
                        proof {
                            assert(item@ == dec_entry(m[key@].data));
                        }
                        let lapsed = match item.ttl {
                            Some(t) => now > t,
                            None => false,
                        };
                        if lapsed {
                            proof {
                                lemma_wrap_remove(m, key@);
                            }
                            let rr = self.store.remove(key);
                            Err(Error::Expired)
                        } else {
                            Ok(item.data)
                        }
                    },
                }
            },
        }
    }

    fn remove(&mut self, key: &Raw) -> (r: Result<(), Error>) {
        proof {
            lemma_wrap_remove(self.store.sv(), key@);
        }
        self.store.remove(key)
    }
}

impl<S: Store> TtlStore for TtlWrap<S> {
    fn insert_ttl(&mut self, key: Raw, ttl: Ttl, value: Raw) -> (r: Result<(), Error>) {
        let item = TtlWrapItem { ttl: Some(ttl), data: value };
        let ghost e = item@;
        let enc = item.encode();
        let ghost m = self.store.sv();
        proof {
            lemma_wrap_insert(m, key@, e);
        }
        self.store.insert(key, enc)
    }

    fn touch(&mut self, key: &Raw, ttl: Ttl) -> (r: Result<(), Error>) {
        let ghost m = old(self).store.sv();
        match self.store.get(key, 0) {
            Err(e) => {
                proof {
                    if m.contains_key(key@) {
                        assert(m[key@].expiry is None);
                        assert(false);
                    }
                }
                Err(e)
            },
            Ok(raw) => {
                proof {
                    assert(m.contains_key(key@));
                    assert(raw@ == m[key@].data);
                }
                match TtlWrapItem::decode(&raw) {
                    None => {
                        proof {
                            assert(false);
                        }
                        Err(Error::Codec)
                    },
                    Some(item) => {
                        let new_item = TtlWrapItem { ttl: Some(ttl), data: item.data };
                        let ghost e = new_item@;
                        let enc = new_item.encode();
                        let key2 = clone_raw(key);
                        proof {
                            lemma_wrap_insert(m, key@, e);
                            assert(e.data == dec_entry(m[key@].data).data);
                        }
                        let rr = self.store.insert(key2, enc);
                        Ok(())
                    },
                }
            },
        }
    }
}

} // verus!
