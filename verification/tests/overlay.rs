//! The envelope codec and the TTL overlay over the in-memory backend.

use keyval::codec::{Codec, Encoded};
use keyval::keyval::KeyVal;
use keyval::memory::Memory;
use keyval::ttl_wrap::{TtlWrap, TtlWrapItem};
use keyval::types::{Store, TtlStore};
use keyval::Error;

fn k(s: &str) -> Vec<u8> {
    s.as_bytes().to_vec()
}

#[test]
fn envelope_round_trip_without_expiry() {
    let item = TtlWrapItem::new(None, k("payload"));
    let bytes = item.encode();
    let back = TtlWrapItem::decode(&bytes).unwrap();
    assert_eq!(back.ttl(), None);
    assert_eq!(back.data(), &k("payload"));
}

#[test]
fn envelope_round_trip_with_expiry() {
    let item = TtlWrapItem::new(Some(123_456_789), k("payload"));
    let bytes = item.encode();
    let back = TtlWrapItem::decode(&bytes).unwrap();
    assert_eq!(back.ttl(), Some(123_456_789));
    assert_eq!(back.data(), &k("payload"));
}

#[test]
fn envelope_rejects_malformed_bytes() {
    // empty input, an unknown tag, and a truncated expiry all fail
    assert!(TtlWrapItem::decode(&vec![]).is_none());
    assert!(TtlWrapItem::decode(&vec![7u8, 0, 0]).is_none());
    assert!(TtlWrapItem::decode(&vec![1u8, 0, 0, 0]).is_none());
}

#[test]
fn envelope_with_expiry_is_tag_plus_eight_bytes() {
    let item = TtlWrapItem::new(Some(0x0102), k(""));
    let bytes = item.encode();
    assert_eq!(bytes, vec![1u8, 0, 0, 0, 0, 0, 0, 1, 2]);
}

#[test]
fn encoded_wrapper_makes_a_codec_type_a_value() {
    // any Codec type becomes storable through the generic Encoded wrapper
    let mut kv = KeyVal::new(Memory::new());
    let item = TtlWrapItem::new(Some(77), k("inner"));
    kv.insert(k("env"), Encoded(item)).unwrap();
    let got: Encoded<TtlWrapItem> = kv.get(k("env"), 0).unwrap();
    assert_eq!(got.0.ttl(), Some(77));
    assert_eq!(got.0.data(), &k("inner"));
}

#[test]
fn overlay_insert_get_remove() {
    let mut w = TtlWrap::new(Memory::new());
    w.insert(k("a"), k("v")).unwrap();
    assert_eq!(w.get(&k("a"), 0).unwrap(), k("v"));
    w.remove(&k("a")).unwrap();
    assert_eq!(w.get(&k("a"), 0), Err(Error::NotFound));
}

#[test]
fn overlay_expiration_and_purge() {
    let mut w = TtlWrap::new(Memory::new());
    w.insert_ttl(k("a"), 50, k("v")).unwrap();
    assert_eq!(w.get(&k("a"), 50).unwrap(), k("v"));
    assert_eq!(w.get(&k("a"), 51), Err(Error::Expired));
    assert_eq!(w.get(&k("a"), 51), Err(Error::NotFound));
}

#[test]
fn overlay_entry_without_ttl_never_expires() {
    let mut w = TtlWrap::new(Memory::new());
    w.insert(k("a"), k("v")).unwrap();
    assert_eq!(w.get(&k("a"), u64::MAX).unwrap(), k("v"));
}

#[test]
fn overlay_touch_extends_lifetime() {
    let mut w = TtlWrap::new(Memory::new());
    w.insert_ttl(k("a"), 50, k("v")).unwrap();
    w.touch(&k("a"), 100).unwrap();
    assert_eq!(w.get(&k("a"), 75).unwrap(), k("v"));
    assert_eq!(w.get(&k("a"), 101), Err(Error::Expired));
}

#[test]
fn overlay_touch_absent_reports_not_found() {
    let mut w = TtlWrap::new(Memory::new());
    assert_eq!(w.touch(&k("nope"), 10), Err(Error::NotFound));
}

#[test]
fn overlay_remove_is_idempotent() {
    let mut w = TtlWrap::new(Memory::new());
    assert_eq!(w.remove(&k("absent")), Ok(()));
    assert_eq!(w.remove(&k("absent")), Ok(()));
}

#[test]
fn overlay_behaves_like_bare_backend_without_ttl() {
    // drive the same script through a bare backend and a wrapped one;
    // without TTL the observable results must be identical
    let mut bare = Memory::new();
    let mut wrapped = TtlWrap::new(Memory::new());

    assert_eq!(
        bare.insert(k("x"), k("1")),
        wrapped.insert(k("x"), k("1"))
    );
    assert_eq!(bare.get(&k("x"), 5), wrapped.get(&k("x"), 5));
    assert_eq!(bare.get(&k("y"), 5), wrapped.get(&k("y"), 5));
    assert_eq!(bare.remove(&k("x")), wrapped.remove(&k("x")));
    assert_eq!(bare.get(&k("x"), 5), wrapped.get(&k("x"), 5));
}
