//! The pluggable serialization capability: a type that can encode itself to
//! bytes and decode itself back, with a proved round-trip law, and the one
//! generic wrapper that lets any such type act as a stored value.

use vstd::prelude::*;
use crate::error::Error;
use crate::types::{Raw, Value};

verus! {

/// A self-describing binary encoding of a type.
///
/// `cenc` is the encoding of a value, `cdec_ok` says which byte strings are
/// well-formed encodings, and `cdec_model` gives the abstract value a
/// well-formed encoding denotes. Every implementation proves the law
/// `codec_round_trip`: a value's encoding is well formed and denotes the
/// value itself, so decoding inverts encoding exactly.
pub trait Codec: View + Sized {
    /// The bytes this value encodes to.
    spec fn cenc(&self) -> Seq<u8>;

    /// Whether `b` is a well-formed encoding.
    spec fn cdec_ok(b: Seq<u8>) -> bool;

    /// The abstract value a well-formed encoding denotes.
    spec fn cdec_model(b: Seq<u8>) -> Self::V;

    /// Serializes the value.
    fn encode(&self) -> (r: Vec<u8>)
        ensures
            r@ == self.cenc(),
    ;

    /// Deserializes a value, failing exactly on malformed bytes.
    fn decode(b: &Vec<u8>) -> (r: Option<Self>)
        ensures
            r is Some <==> Self::cdec_ok(b@),
            (r matches Some(v) ==> v@ == Self::cdec_model(b@)),
    ;

    /// The round-trip law: encoding then decoding reproduces the value.
    proof fn codec_round_trip(&self)
        ensures
            Self::cdec_ok(self.cenc()),
            Self::cdec_model(self.cenc()) == self@,
    ;
}

/// The generic bridge from the serialization capability to the storage
/// contract: wrapping any `Codec` type makes it a storable `Value`, once,
/// with no per-format code.
pub struct Encoded<T>(pub T);

impl<T: Codec> View for Encoded<T> {
    type V = T::V;

    open spec fn view(&self) -> T::V {
        self.0@
    }
}

impl<T: Codec> Value for Encoded<T> {
    open spec fn venc(&self) -> Seq<u8> {
        self.0.cenc()
    }

    open spec fn vdec_ok(b: Seq<u8>) -> bool {
        T::cdec_ok(b)
    }

    open spec fn vdec_model(b: Seq<u8>) -> T::V {
        T::cdec_model(b)
    }

    open spec fn vdec_err() -> Error {
        Error::Codec
    }

    fn to_raw(self) -> (r: Result<Raw, Error>) {
        Ok(self.0.encode())
    }

    fn from_raw(r: Raw) -> (res: Result<Self, Error>) {
        match T::decode(&r) {
            Some(v) => Ok(Encoded(v)),
            None => Err(Error::Codec),
        }
    }

    proof fn value_round_trip(self) {
        self.0.codec_round_trip();
    }
}

} // verus!
