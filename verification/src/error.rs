//! The error taxonomy shared by every layer of the store.

use vstd::prelude::*;

verus! {

/// Errors reported by the storage contract and the typed façade.
///
/// `NotFound` and `Expired` are distinguishable so that a caller can tell
/// "never existed" apart from "existed and lapsed". `Utf8` reports a string
/// decode failure; `Codec` reports any other malformed byte representation
/// (a bad envelope, an integer of the wrong width).
#[derive(Clone, Copy, Debug, PartialEq, Eq, Structural)]
pub enum Error {
    /// The key is absent.
    NotFound,
    /// The key was present but its expiry has elapsed.
    Expired,
    /// A value could not be decoded as UTF-8 text.
    Utf8,
    /// A stored byte sequence is not a valid encoding of the requested type.
    Codec,
}

impl Error {
    /// A short description of the error.
    pub fn describe(&self) -> (s: &'static str)
        ensures
            *self == Error::NotFound ==> s@ == "not found"@,
            *self == Error::Expired ==> s@ == "expired"@,
            *self == Error::Utf8 ==> s@ == "parse error"@,
            *self == Error::Codec ==> s@ == "encode error"@,
    {
        match self {
            Error::NotFound => "not found",
            Error::Expired => "expired",
            Error::Utf8 => "parse error",
            Error::Codec => "encode error",
        }
    }
}

} // verus!
