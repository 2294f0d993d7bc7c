//! The storage contract: raw keys and values, the entry model shared by all
//! backends, the `Store` / `TtlStore` traits, the `Key` / `Value` conversion
//! capabilities, and the order-preserving `Integer` key.

use vstd::prelude::*;
use vstd::string::StrSliceExecFns;
use vstd::utf8::{
    decode_utf8, encode_utf8, encode_utf8_decode_utf8, encode_utf8_valid_utf8, valid_utf8,
};
use crate::bigendian::{
    be_bytes, from_be_at, from_be_bytes, lemma_be_bytes_len, lemma_be_bytes_order,
    lemma_from_be_be, lemma_from_be_bound, lemma_pow256_16, lex_lt, push_bytes, to_be_array,
};
use crate::error::Error;

verus! {

/// An opaque byte-sequence key or value: the only shape the raw storage
/// contract understands.
pub type Raw = Vec<u8>;

/// An expiry instant on the caller's monotonic clock, in milliseconds.
/// Operations that consult the clock take the current reading as an argument.
pub type Ttl = u64;

/// The mathematical model of one stored entry: a payload and an optional
/// expiry instant. Absent expiry means the entry never lapses.
pub ghost struct Entry {
    pub expiry: Option<Ttl>,
    pub data: Seq<u8>,
}

/// Whether an entry is still alive at clock reading `now`: it has no expiry,
/// or its expiry has not yet passed.
pub open spec fn fresh_at(e: Entry, now: Ttl) -> bool {
    match e.expiry {
        Option::None => true,
        Option::Some(t) => now <= t,
    }
}

/// The raw storage contract: an unconditional upsert, a lookup that lazily
/// evicts lapsed entries, and an idempotent delete, all over opaque bytes.
///
/// A store models itself as a map from key bytes to entries (`sv`) with a
/// well-formedness invariant (`inv`) that every operation preserves.
pub trait Store: Sized {
    /// The map of entries this store currently holds.
    spec fn sv(&self) -> Map<Seq<u8>, Entry>;

    /// Well-formedness of the store's representation.
    spec fn inv(&self) -> bool;

    /// Unconditional upsert of a never-expiring entry.
    fn insert(&mut self, key: Raw, value: Raw) -> (r: Result<(), Error>)
        requires
            old(self).inv(),
        ensures
            final(self).inv(),
            r is Ok,
            final(self).sv() == old(self).sv().insert(
                key@,
                (Entry { expiry: None, data: value@ }),
            ),
    ;

    /// Lookup at clock reading `now`. An absent key reports `NotFound` and
    /// changes nothing; a live entry is returned unchanged; a lapsed entry is
    /// deleted and reported as `Expired`.
    fn get(&mut self, key: &Raw, now: Ttl) -> (r: Result<Raw, Error>)
        requires
            old(self).inv(),
        ensures
            final(self).inv(),
            !old(self).sv().contains_key(key@) ==> r == Err::<Raw, Error>(Error::NotFound)
                && final(self).sv() == old(self).sv(),
            old(self).sv().contains_key(key@) && fresh_at(old(self).sv()[key@], now) ==> (r
                matches Ok(v) && v@ == old(self).sv()[key@].data) && final(self).sv() == old(
                self,
            ).sv(),
            old(self).sv().contains_key(key@) && !fresh_at(old(self).sv()[key@], now) ==> r
                == Err::<Raw, Error>(Error::Expired) && final(self).sv() == old(self).sv().remove(
                key@,
            ),
    ;

    /// Idempotent delete: succeeds whether or not the key was present.
    fn remove(&mut self, key: &Raw) -> (r: Result<(), Error>)
        requires
            old(self).inv(),
        ensures
            final(self).inv(),
            r is Ok,
            final(self).sv() == old(self).sv().remove(key@),
    ;
}

/// The TTL extension of the raw contract: an upsert that records an expiry,
/// and an expiry update that leaves the payload untouched.
pub trait TtlStore: Store {
    /// Upsert recording expiry `ttl`.
    fn insert_ttl(&mut self, key: Raw, ttl: Ttl, value: Raw) -> (r: Result<(), Error>)
        requires
            old(self).inv(),
        ensures
            final(self).inv(),
            r is Ok,
            final(self).sv() == old(self).sv().insert(
                key@,
                (Entry { expiry: Some(ttl), data: value@ }),
            ),
    ;

    /// Replaces the expiry of an existing entry, failing with `NotFound` if
    /// the key is absent.
    fn touch(&mut self, key: &Raw, ttl: Ttl) -> (r: Result<(), Error>)
        requires
            old(self).inv(),
        ensures
            final(self).inv(),
            old(self).sv().contains_key(key@) ==> r is Ok && final(self).sv() == old(
                self,
            ).sv().insert(
                key@,
                (Entry { expiry: Some(ttl), data: old(self).sv()[key@].data }),
            ),
            !old(self).sv().contains_key(key@) ==> r == Err::<(), Error>(Error::NotFound)
                && final(self).sv() == old(self).sv(),
    ;
}

/// A boxed store is a store: delegation for callers that hold a backend
/// indirectly.
impl<S: Store> Store for Box<S> {
    open spec fn sv(&self) -> Map<Seq<u8>, Entry> {
        (**self).sv()
    }

    open spec fn inv(&self) -> bool {
        (**self).inv()
    }

    fn insert(&mut self, key: Raw, value: Raw) -> (r: Result<(), Error>) {
        (**self).insert(key, value)
    }

    fn get(&mut self, key: &Raw, now: Ttl) -> (r: Result<Raw, Error>) {
        (**self).get(key, now)
    }

    fn remove(&mut self, key: &Raw) -> (r: Result<(), Error>) {
        (**self).remove(key)
    }
}

impl<S: TtlStore> TtlStore for Box<S> {
    fn insert_ttl(&mut self, key: Raw, ttl: Ttl, value: Raw) -> (r: Result<(), Error>) {
        (**self).insert_ttl(key, ttl, value)
    }

    fn touch(&mut self, key: &Raw, ttl: Ttl) -> (r: Result<(), Error>) {
        (**self).touch(key, ttl)
    }
}

/// The capability of a typed key: a pure conversion to raw bytes.
pub trait Key: Sized {
    /// The bytes this key converts to.
    spec fn kenc(&self) -> Seq<u8>;

    /// Converts the key to its raw byte representation.
    fn to_raw(&self) -> (r: Result<Raw, Error>)
        ensures
            (r matches Ok(v) && v@ == self.kenc()),
    ;
}

/// The capability of a typed value: a conversion to raw bytes and a partial
/// conversion back. Every implementation proves the round-trip law
/// `value_round_trip`: decoding an encoding yields the original value.
pub trait Value: View + Sized {
    /// The bytes this value encodes to.
    spec fn venc(&self) -> Seq<u8>;

    /// Whether `b` is decodable as a value of this type.
    spec fn vdec_ok(b: Seq<u8>) -> bool;

    /// The abstract value that decodable bytes decode to.
    spec fn vdec_model(b: Seq<u8>) -> Self::V;

    /// The error reported for undecodable bytes.
    spec fn vdec_err() -> Error;

    /// Converts the value to its raw byte representation.
    fn to_raw(self) -> (r: Result<Raw, Error>)
        ensures
            (r matches Ok(v) && v@ == self.venc()),
    ;

    /// Converts raw bytes back to a typed value, reporting `vdec_err` exactly
    /// on undecodable input.
    fn from_raw(r: Raw) -> (res: Result<Self, Error>)
        ensures
            Self::vdec_ok(r@) ==> (res matches Ok(v) && v@ == Self::vdec_model(r@)),
            !Self::vdec_ok(r@) ==> res == Err::<Self, Error>(Self::vdec_err()),
    ;

    /// The round-trip law: the encoding of a value is decodable, and decodes
    /// back to the value itself.
    proof fn value_round_trip(self)
        ensures
            Self::vdec_ok(self.venc()),
            Self::vdec_model(self.venc()) == self@,
    ;
}

/// Copies a raw byte sequence.
pub fn clone_raw(v: &Raw) -> (r: Raw)
    ensures
        r@ == v@,
{
    let mut out: Vec<u8> = Vec::new();
    push_bytes(&mut out, v.as_slice());
    proof {
        assert(Seq::<u8>::empty() + v@ =~= v@);
    }
    out
}

/// Copies the byte range `from..to` out of a raw value.
pub fn sub_vec(v: &Raw, from: usize, to: usize) -> (r: Raw)
    requires
        from <= to,
        to <= v@.len(),
    ensures
        r@ == v@.subrange(from as int, to as int),
{
    let mut out: Vec<u8> = Vec::new();
    let mut k: usize = from;
    proof {
        assert(Seq::<u8>::empty() =~= v@.subrange(from as int, from as int));
    }
    while k < to
        invariant
            from <= k <= to,
            to <= v@.len(),
            out@ == v@.subrange(from as int, k as int),
        decreases to - k,
    {
        let ghost prev = out@;
        out.push(v[k]);
        proof {
            assert(prev.push(v@[k as int]) =~= v@.subrange(from as int, k as int + 1));
        }
        k = k + 1;
    }
    proof {
        assert(out@ =~= v@.subrange(from as int, to as int));
    }
    out
}

/// Compares two raw byte sequences for equality.
pub fn raw_eq(a: &Raw, b: &Raw) -> (r: bool)
    ensures
        r <==> a@ == b@,
{
    if a.len() != b.len() {
        proof {
            assert(a@ != b@);
        }
        return false;
    }
    let n = a.len();
    let mut k: usize = 0;
    while k < n
        invariant
            k <= n,
            a@.len() == n,
            b@.len() == n,
            forall|i: int| 0 <= i < k ==> a@[i] == b@[i],
        decreases n - k,
    {
        if a[k] != b[k] {
            proof {
                assert(a@[k as int] != b@[k as int]);
            }
            return false;
        }
        k = k + 1;
    }
    proof {
        assert(a@ =~= b@);
    }
    true
}

/// An order-preserving integer key: exactly 16 bytes, the big-endian
/// encoding of an unsigned 128-bit integer. For any `a < b`, the encoding of
/// `a` is lexicographically less than the encoding of `b`.
#[derive(Debug, Clone, Copy, PartialEq, Eq)]
pub struct Integer(pub(crate) [u8; 16]);

impl View for Integer {
    type V = Seq<u8>;

    closed spec fn view(&self) -> Seq<u8> {
        self.0@
    }
}

impl Integer {
    /// Encodes a 128-bit unsigned integer as its big-endian key.
    pub fn from_u128(x: u128) -> (r: Integer)
        ensures
            r@ == be_bytes(x as nat, 16),
    {
        Integer(to_be_array::<16>(x))
    }

    /// Decodes the key back to the integer it encodes.
    pub fn to_u128(&self) -> (x: u128)
        ensures
            x as nat == from_be_bytes(self@),
    {
        broadcast use vstd::array::group_array_axioms;

        let x = from_be_at(self.0.as_slice(), 0, 16);
        proof {
            assert(self.0@.subrange(0, 16) =~= self.0@);
        }
        x
    }

    /// Reads an integer key from the first 16 bytes of a buffer.
    pub fn from_slice(buf: &[u8]) -> (r: Integer)
        requires
            buf@.len() >= 16,
        ensures
            r@ == buf@.subrange(0, 16),
    {
        broadcast use vstd::array::group_array_axioms;

        let mut arr = [0u8; 16];
        let mut j: usize = 0;
        while j < 16
            invariant
                j <= 16,
                buf@.len() >= 16,
                arr@.len() == 16,
                forall|i: int| 0 <= i < j ==> arr@[i] == buf@[i],
            decreases 16 - j,
        {
            arr[j] = buf[j];
            j = j + 1;
        }
        proof {
            assert(arr@ =~= buf@.subrange(0, 16));
        }
        Integer(arr)
    }

    /// The key's 16 bytes as a raw value.
    pub fn to_vec(&self) -> (v: Raw)
        ensures
            v@ == self@,
    {
        broadcast use vstd::array::group_array_axioms;

        let mut out: Vec<u8> = Vec::new();
        push_bytes(&mut out, self.0.as_slice());
        proof {
            assert(Seq::<u8>::empty() + self.0@ =~= self.0@);
        }
        out
    }
}

impl Key for Integer {
    open spec fn kenc(&self) -> Seq<u8> {
        self@
    }

    fn to_raw(&self) -> (r: Result<Raw, Error>) {
        Ok(self.to_vec())
    }
}

/// Relies on `String::from_utf8`: it succeeds exactly on valid UTF-8 input
/// and returns the text those bytes encode.
#[verifier::external_body]
fn vec_to_string(v: Vec<u8>) -> (r: Option<String>)
    ensures
        r is Some <==> valid_utf8(v@),
        (r matches Some(s) ==> s@ == decode_utf8(v@)),
{
    match String::from_utf8(v) {
        Ok(s) => Some(s),
        Err(_) => None,
    }
}

impl Key for Vec<u8> {
    open spec fn kenc(&self) -> Seq<u8> {
        self@
    }

    fn to_raw(&self) -> (r: Result<Raw, Error>) {
        Ok(clone_raw(self))
    }
}

impl<'a> Key for &'a [u8] {
    open spec fn kenc(&self) -> Seq<u8> {
        self@
    }

    fn to_raw(&self) -> (r: Result<Raw, Error>) {
        let mut out: Vec<u8> = Vec::new();
        push_bytes(&mut out, self);
        proof {
            assert(Seq::<u8>::empty() + self@ =~= self@);
        }
        Ok(out)
    }
}

impl<'a> Key for &'a str {
    open spec fn kenc(&self) -> Seq<u8> {
        encode_utf8(self@)
    }

    fn to_raw(&self) -> (r: Result<Raw, Error>) {
        Ok(self.as_bytes_vec())
    }
}

impl Key for String {
    open spec fn kenc(&self) -> Seq<u8> {
        encode_utf8(self@)
    }

    fn to_raw(&self) -> (r: Result<Raw, Error>) {
        Ok(self.as_str().as_bytes_vec())
    }
}

impl Value for String {
    open spec fn venc(&self) -> Seq<u8> {
        encode_utf8(self@)
    }

    open spec fn vdec_ok(b: Seq<u8>) -> bool {
        valid_utf8(b)
    }

    open spec fn vdec_model(b: Seq<u8>) -> Seq<char> {
        decode_utf8(b)
    }

    open spec fn vdec_err() -> Error {
        Error::Utf8
    }

    fn to_raw(self) -> (r: Result<Raw, Error>) {
        Ok(self.as_str().as_bytes_vec())
    }

    fn from_raw(r: Raw) -> (res: Result<Self, Error>) {
        match vec_to_string(r) {
            Some(s) => Ok(s),
            None => Err(Error::Utf8),
        }
    }

    proof fn value_round_trip(self) {
        encode_utf8_valid_utf8(self@);
        encode_utf8_decode_utf8(self@);
    }
}

impl Value for Vec<u8> {
    open spec fn venc(&self) -> Seq<u8> {
        self@
    }

    open spec fn vdec_ok(b: Seq<u8>) -> bool {
        true
    }

    open spec fn vdec_model(b: Seq<u8>) -> Seq<u8> {
        b
    }

    open spec fn vdec_err() -> Error {
        Error::Codec
    }

    fn to_raw(self) -> (r: Result<Raw, Error>) {
        Ok(self)
    }

    fn from_raw(r: Raw) -> (res: Result<Self, Error>) {
        Ok(r)
    }

    proof fn value_round_trip(self) {
    }
}

/// The shared encoding of every integer value: the 16-byte big-endian key
/// bytes of the value widened (for signed types: wrapped) to `u128`.
fn int_value_to_raw(x: u128) -> (r: Raw)
    ensures
        r@ == be_bytes(x as nat, 16),
{
    let i = Integer::from_u128(x);
    i.to_vec()
}

/// The shared decoding: reads the first 16 bytes back as a `u128`, rejecting
/// shorter input.
fn int_value_from_raw(r: &Raw) -> (res: Result<u128, Error>)
    ensures
        r@.len() >= 16 ==> (res matches Ok(x) && x as nat == from_be_bytes(r@.subrange(0, 16))),
        r@.len() < 16 ==> res == Err::<u128, Error>(Error::Codec),
{
    if r.len() < 16 {
        Err(Error::Codec)
    } else {
        Ok(from_be_at(r.as_slice(), 0, 16))
    }
}

proof fn lemma_int_value_round_trip(x: u128)
    ensures
        be_bytes(x as nat, 16).len() == 16,
        from_be_bytes(be_bytes(x as nat, 16).subrange(0, 16)) == x as nat,
{
    lemma_pow256_16();
    lemma_be_bytes_len(x as nat, 16);
    lemma_from_be_be(x as nat, 16);
    assert(be_bytes(x as nat, 16).subrange(0, 16) =~= be_bytes(x as nat, 16));
}

proof fn lemma_from_be_fits(b: Seq<u8>)
    requires
        b.len() >= 16,
    ensures
        (from_be_bytes(b.subrange(0, 16)) as u128) as nat == from_be_bytes(b.subrange(0, 16)),
{
    lemma_from_be_bound(b.subrange(0, 16));
    lemma_pow256_16();
}

impl Value for u64 {
    open spec fn venc(&self) -> Seq<u8> {
        be_bytes((*self as u128) as nat, 16)
    }

    open spec fn vdec_ok(b: Seq<u8>) -> bool {
        b.len() >= 16
    }

    open spec fn vdec_model(b: Seq<u8>) -> u64 {
        (from_be_bytes(b.subrange(0, 16)) as u128) as u64
    }

    open spec fn vdec_err() -> Error {
        Error::Codec
    }

    fn to_raw(self) -> (r: Result<Raw, Error>) {
        Ok(int_value_to_raw(self as u128))
    }

    fn from_raw(r: Raw) -> (res: Result<Self, Error>) {
        proof {
            if r@.len() >= 16 {
                lemma_from_be_fits(r@);
            }
        }
        match int_value_from_raw(&r) {
            Ok(x) => Ok(x as u64),
            Err(e) => Err(e),
        }
    }

    proof fn value_round_trip(self) {
        lemma_int_value_round_trip(self as u128);
    }
}

impl Value for i64 {
    open spec fn venc(&self) -> Seq<u8> {
        be_bytes((*self as u128) as nat, 16)
    }

    open spec fn vdec_ok(b: Seq<u8>) -> bool {
        b.len() >= 16
    }

    open spec fn vdec_model(b: Seq<u8>) -> i64 {
        (from_be_bytes(b.subrange(0, 16)) as u128) as i64
    }

    open spec fn vdec_err() -> Error {
        Error::Codec
    }

    fn to_raw(self) -> (r: Result<Raw, Error>) {
        Ok(int_value_to_raw(self as u128))
    }

    fn from_raw(r: Raw) -> (res: Result<Self, Error>) {
        proof {
            if r@.len() >= 16 {
                lemma_from_be_fits(r@);
            }
        }
        match int_value_from_raw(&r) {
            Ok(x) => Ok(x as i64),
            Err(e) => Err(e),
        }
    }

    proof fn value_round_trip(self) {
        lemma_int_value_round_trip(self as u128);
        assert(((self as u128) as i64) == self) by (bit_vector);
    }
}

impl Value for usize {
    open spec fn venc(&self) -> Seq<u8> {
        be_bytes((*self as u128) as nat, 16)
    }

    open spec fn vdec_ok(b: Seq<u8>) -> bool {
        b.len() >= 16
    }

    open spec fn vdec_model(b: Seq<u8>) -> usize {
        (from_be_bytes(b.subrange(0, 16)) as u128) as usize
    }

    open spec fn vdec_err() -> Error {
        Error::Codec
    }

    fn to_raw(self) -> (r: Result<Raw, Error>) {
        Ok(int_value_to_raw(self as u128))
    }

    fn from_raw(r: Raw) -> (res: Result<Self, Error>) {
        proof {
            if r@.len() >= 16 {
                lemma_from_be_fits(r@);
            }
        }
        match int_value_from_raw(&r) {
            Ok(x) => Ok(x as usize),
            Err(e) => Err(e),
        }
    }

    proof fn value_round_trip(self) {
        lemma_int_value_round_trip(self as u128);
    }
}

impl Value for u32 {
    open spec fn venc(&self) -> Seq<u8> {
        be_bytes((*self as u128) as nat, 16)
    }

    open spec fn vdec_ok(b: Seq<u8>) -> bool {
        b.len() >= 16
    }

    open spec fn vdec_model(b: Seq<u8>) -> u32 {
        (from_be_bytes(b.subrange(0, 16)) as u128) as u32
    }

    open spec fn vdec_err() -> Error {
        Error::Codec
    }

    fn to_raw(self) -> (r: Result<Raw, Error>) {
        Ok(int_value_to_raw(self as u128))
    }

    fn from_raw(r: Raw) -> (res: Result<Self, Error>) {
        proof {
            if r@.len() >= 16 {
                lemma_from_be_fits(r@);
            }
        }
        match int_value_from_raw(&r) {
            Ok(x) => Ok(x as u32),
            Err(e) => Err(e),
        }
    }

    proof fn value_round_trip(self) {
        lemma_int_value_round_trip(self as u128);
    }
}

impl Value for i32 {
    open spec fn venc(&self) -> Seq<u8> {
        be_bytes((*self as u128) as nat, 16)
    }

    open spec fn vdec_ok(b: Seq<u8>) -> bool {
        b.len() >= 16
    }

    open spec fn vdec_model(b: Seq<u8>) -> i32 {
        (from_be_bytes(b.subrange(0, 16)) as u128) as i32
    }

    open spec fn vdec_err() -> Error {
        Error::Codec
    }

    fn to_raw(self) -> (r: Result<Raw, Error>) {
        Ok(int_value_to_raw(self as u128))
    }

    fn from_raw(r: Raw) -> (res: Result<Self, Error>) {
        proof {
            if r@.len() >= 16 {
                lemma_from_be_fits(r@);
            }
        }
        match int_value_from_raw(&r) {
            Ok(x) => Ok(x as i32),
            Err(e) => Err(e),
        }
    }

    proof fn value_round_trip(self) {
        lemma_int_value_round_trip(self as u128);
        assert(((self as u128) as i32) == self) by (bit_vector);
    }
}

impl Value for u16 {
    open spec fn venc(&self) -> Seq<u8> {
        be_bytes((*self as u128) as nat, 16)
    }

    open spec fn vdec_ok(b: Seq<u8>) -> bool {
        b.len() >= 16
    }

    open spec fn vdec_model(b: Seq<u8>) -> u16 {
        (from_be_bytes(b.subrange(0, 16)) as u128) as u16
    }

    open spec fn vdec_err() -> Error {
        Error::Codec
    }

    fn to_raw(self) -> (r: Result<Raw, Error>) {
        Ok(int_value_to_raw(self as u128))
    }

    fn from_raw(r: Raw) -> (res: Result<Self, Error>) {
        proof {
            if r@.len() >= 16 {
                lemma_from_be_fits(r@);
            }
        }
        match int_value_from_raw(&r) {
            Ok(x) => Ok(x as u16),
            Err(e) => Err(e),
        }
    }

    proof fn value_round_trip(self) {
        lemma_int_value_round_trip(self as u128);
    }
}

impl Value for i16 {
    open spec fn venc(&self) -> Seq<u8> {
        be_bytes((*self as u128) as nat, 16)
    }

    open spec fn vdec_ok(b: Seq<u8>) -> bool {
        b.len() >= 16
    }

    open spec fn vdec_model(b: Seq<u8>) -> i16 {
        (from_be_bytes(b.subrange(0, 16)) as u128) as i16
    }

    open spec fn vdec_err() -> Error {
        Error::Codec
    }

    fn to_raw(self) -> (r: Result<Raw, Error>) {
        Ok(int_value_to_raw(self as u128))
    }

    fn from_raw(r: Raw) -> (res: Result<Self, Error>) {
        proof {
            if r@.len() >= 16 {
                lemma_from_be_fits(r@);
            }
        }
        match int_value_from_raw(&r) {
            Ok(x) => Ok(x as i16),
            Err(e) => Err(e),
        }
    }

    proof fn value_round_trip(self) {
        lemma_int_value_round_trip(self as u128);
        assert(((self as u128) as i16) == self) by (bit_vector);
    }
}

impl Value for u8 {
    open spec fn venc(&self) -> Seq<u8> {
        be_bytes((*self as u128) as nat, 16)
    }

    open spec fn vdec_ok(b: Seq<u8>) -> bool {
        b.len() >= 16
    }

    open spec fn vdec_model(b: Seq<u8>) -> u8 {
        (from_be_bytes(b.subrange(0, 16)) as u128) as u8
    }

    open spec fn vdec_err() -> Error {
        Error::Codec
    }

    fn to_raw(self) -> (r: Result<Raw, Error>) {
        Ok(int_value_to_raw(self as u128))
    }

    fn from_raw(r: Raw) -> (res: Result<Self, Error>) {
        proof {
            if r@.len() >= 16 {
                lemma_from_be_fits(r@);
            }
        }
        match int_value_from_raw(&r) {
            Ok(x) => Ok(x as u8),
            Err(e) => Err(e),
        }
    }

    proof fn value_round_trip(self) {
        lemma_int_value_round_trip(self as u128);
    }
}

impl Value for i8 {
    open spec fn venc(&self) -> Seq<u8> {
        be_bytes((*self as u128) as nat, 16)
    }

    open spec fn vdec_ok(b: Seq<u8>) -> bool {
        b.len() >= 16
    }

    open spec fn vdec_model(b: Seq<u8>) -> i8 {
        (from_be_bytes(b.subrange(0, 16)) as u128) as i8
    }

    open spec fn vdec_err() -> Error {
        Error::Codec
    }

    fn to_raw(self) -> (r: Result<Raw, Error>) {
        Ok(int_value_to_raw(self as u128))
    }

    fn from_raw(r: Raw) -> (res: Result<Self, Error>) {
        proof {
            if r@.len() >= 16 {
                lemma_from_be_fits(r@);
            }
        }
        match int_value_from_raw(&r) {
            Ok(x) => Ok(x as i8),
            Err(e) => Err(e),
        }
    }

    proof fn value_round_trip(self) {
        lemma_int_value_round_trip(self as u128);
        assert(((self as u128) as i8) == self) by (bit_vector);
    }
}

/// Ordering preservation for the integer key: numeric order on `u128` equals
/// lexicographic order on the 16-byte encodings.
pub proof fn lemma_integer_key_order(a: u128, b: u128)
    requires
        a < b,
    ensures
        lex_lt(be_bytes(a as nat, 16), be_bytes(b as nat, 16)),
{
    lemma_pow256_16();
    lemma_be_bytes_order(a as nat, b as nat, 16);
}

/// The integer key decodes back to the integer it was built from.
pub proof fn lemma_integer_key_round_trip(a: u128)
    ensures
        from_be_bytes(be_bytes(a as nat, 16)) == a as nat,
        be_bytes(a as nat, 16).len() == 16,
{
    lemma_pow256_16();
    lemma_from_be_be(a as nat, 16);
    lemma_be_bytes_len(a as nat, 16);
}

/// Expiration correctness: an entry stored with an expiry already in the
/// past is present but lapsed, so by the lookup contract the first `get`
/// reports `Expired` and purges it; after the purge the key is absent, so
/// the next `get` reports `NotFound`.
pub proof fn lemma_expired_then_absent(
    m: Map<Seq<u8>, Entry>,
    k: Seq<u8>,
    d: Seq<u8>,
    t0: Ttl,
    now: Ttl,
)
    requires
        now > t0,
    ensures
        ({
            let m1 = m.insert(k, Entry { expiry: Some(t0), data: d });
            m1.contains_key(k) && !fresh_at(m1[k], now) && !m1.remove(k).contains_key(k)
        }),
{
}

/// Non-expiring entries persist: an entry stored without an expiry is alive
/// at every clock reading, so by the lookup contract `get` never reports
/// `Expired` for it, regardless of elapsed time.
pub proof fn lemma_no_ttl_never_expires(m: Map<Seq<u8>, Entry>, k: Seq<u8>, d: Seq<u8>, now: Ttl)
    ensures
        ({
            let m1 = m.insert(k, Entry { expiry: None, data: d });
            m1.contains_key(k) && fresh_at(m1[k], now)
        }),
{
}

/// Touch extends lifetime: after an entry stored to expire at `t1` is
/// touched to expire at `t2` instead, it is alive at any reading up to
/// `t2` — in particular between `t1` and `t2` — and still carries the value
/// it was stored with.
pub proof fn lemma_touch_extends(
    m: Map<Seq<u8>, Entry>,
    k: Seq<u8>,
    d: Seq<u8>,
    t1: Ttl,
    t2: Ttl,
    now: Ttl,
)
    requires
        now <= t2,
    ensures
        ({
            let m1 = m.insert(k, Entry { expiry: Some(t1), data: d });
            let m2 = m1.insert(k, Entry { expiry: Some(t2), data: m1[k].data });
            m2.contains_key(k) && fresh_at(m2[k], now) && m2[k].data == d
        }),
{
}

/// Remove is idempotent at the model level: deleting an absent key leaves
/// the map unchanged, and the delete contract succeeds either way.
pub proof fn lemma_remove_absent(m: Map<Seq<u8>, Entry>, k: Seq<u8>)
    requires
        !m.contains_key(k),
    ensures
        m.remove(k) == m,
{
    assert(m.remove(k) =~= m);
}

/// Upserts to one key serialize cleanly: in either order of two upserts the
/// entry afterwards is exactly the one written last — one of the two values,
/// never a mixture — and it is alive at every reading.
pub proof fn lemma_last_insert_wins(
    m: Map<Seq<u8>, Entry>,
    k: Seq<u8>,
    d1: Seq<u8>,
    d2: Seq<u8>,
    now: Ttl,
)
    ensures
        ({
            let a = m.insert(k, Entry { expiry: None, data: d1 }).insert(
                k,
                Entry { expiry: None, data: d2 },
            );
            a.contains_key(k) && fresh_at(a[k], now) && a[k].data == d2
        }),
        ({
            let b = m.insert(k, Entry { expiry: None, data: d2 }).insert(
                k,
                Entry { expiry: None, data: d1 },
            );
            b.contains_key(k) && fresh_at(b[k], now) && b[k].data == d1
        }),
{
}

} // verus!
