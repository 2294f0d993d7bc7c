//! The typed façade: conversion round trips and error surfacing.

use keyval::keyval::KeyVal;
use keyval::keyval_ext::StoreExt;
use keyval::memory::Memory;
use keyval::types::Integer;
use keyval::Error;

fn k(s: &str) -> Vec<u8> {
    s.as_bytes().to_vec()
}

#[test]
fn string_value_round_trip() {
    let mut kv = KeyVal::new(Memory::new());
    kv.insert(k("s"), String::from("héllo wörld")).unwrap();
    let got: String = kv.get(k("s"), 0).unwrap();
    assert_eq!(got, "héllo wörld");
}

#[test]
fn byte_value_round_trip() {
    let mut kv = KeyVal::new(Memory::new());
    kv.insert(k("b"), vec![0u8, 1, 2, 255]).unwrap();
    let got: Vec<u8> = kv.get(k("b"), 0).unwrap();
    assert_eq!(got, vec![0u8, 1, 2, 255]);
}

#[test]
fn unsigned_value_round_trips() {
    let mut kv = KeyVal::new(Memory::new());

    kv.insert(k("u8"), 200u8).unwrap();
    assert_eq!(kv.get::<Vec<u8>, u8>(k("u8"), 0).unwrap(), 200u8);

    kv.insert(k("u16"), 60_000u16).unwrap();
    assert_eq!(kv.get::<Vec<u8>, u16>(k("u16"), 0).unwrap(), 60_000u16);

    kv.insert(k("u32"), 4_000_000_000u32).unwrap();
    assert_eq!(
        kv.get::<Vec<u8>, u32>(k("u32"), 0).unwrap(),
        4_000_000_000u32
    );

    kv.insert(k("u64"), u64::MAX).unwrap();
    assert_eq!(kv.get::<Vec<u8>, u64>(k("u64"), 0).unwrap(), u64::MAX);

    kv.insert(k("usize"), usize::MAX).unwrap();
    assert_eq!(kv.get::<Vec<u8>, usize>(k("usize"), 0).unwrap(), usize::MAX);
}

#[test]
fn signed_value_round_trips() {
    let mut kv = KeyVal::new(Memory::new());

    kv.insert(k("i8"), -100i8).unwrap();
    assert_eq!(kv.get::<Vec<u8>, i8>(k("i8"), 0).unwrap(), -100i8);

    kv.insert(k("i16"), -30_000i16).unwrap();
    assert_eq!(kv.get::<Vec<u8>, i16>(k("i16"), 0).unwrap(), -30_000i16);

    kv.insert(k("i32"), i32::MIN).unwrap();
    assert_eq!(kv.get::<Vec<u8>, i32>(k("i32"), 0).unwrap(), i32::MIN);

    kv.insert(k("i64"), -1i64).unwrap();
    assert_eq!(kv.get::<Vec<u8>, i64>(k("i64"), 0).unwrap(), -1i64);
}

#[test]
fn integer_key_usable_through_facade() {
    let mut kv = KeyVal::new(Memory::new());
    kv.insert(Integer::from_u128(42), String::from("answer"))
        .unwrap();
    assert_eq!(
        kv.get::<Integer, String>(Integer::from_u128(42), 0).unwrap(),
        "answer"
    );
    assert_eq!(
        kv.get::<Integer, String>(Integer::from_u128(43), 0),
        Err(Error::NotFound)
    );
}

#[test]
fn string_keys_work() {
    let mut kv = KeyVal::new(Memory::new());
    kv.insert(String::from("key"), 7u32).unwrap();
    assert_eq!(kv.get::<String, u32>(String::from("key"), 0).unwrap(), 7);
    kv.remove(&String::from("key")).unwrap();
    assert_eq!(
        kv.get::<String, u32>(String::from("key"), 0),
        Err(Error::NotFound)
    );
}

#[test]
fn borrowed_keys_work() {
    let mut kv = KeyVal::new(Memory::new());
    kv.insert("sk", 5u64).unwrap();
    assert_eq!(kv.get::<&str, u64>("sk", 0).unwrap(), 5);
    let raw: &[u8] = b"bk";
    kv.insert(raw, 6u64).unwrap();
    assert_eq!(kv.get::<&[u8], u64>(b"bk", 0).unwrap(), 6);
    // a &str key and a String key with the same text address the same entry
    assert_eq!(kv.get::<String, u64>(String::from("sk"), 0).unwrap(), 5);
}

#[test]
fn invalid_utf8_surfaces_utf8_error() {
    let mut kv = KeyVal::new(Memory::new());
    kv.insert(k("bad"), vec![0xffu8, 0xfe, 0xfd]).unwrap();
    assert_eq!(kv.get::<Vec<u8>, String>(k("bad"), 0), Err(Error::Utf8));
}

#[test]
fn short_bytes_surface_codec_error_for_integers() {
    let mut kv = KeyVal::new(Memory::new());
    kv.insert(k("short"), vec![1u8, 2, 3]).unwrap();
    assert_eq!(kv.get::<Vec<u8>, u64>(k("short"), 0), Err(Error::Codec));
}

#[test]
fn facade_over_ttl_overlay() {
    let mut kv = KeyVal::new(Memory::new().into_ttl());
    kv.insert_ttl(k("a"), String::from("v"), 50).unwrap();
    assert_eq!(kv.get::<Vec<u8>, String>(k("a"), 50).unwrap(), "v");
    kv.touch(k("a"), 100).unwrap();
    assert_eq!(kv.get::<Vec<u8>, String>(k("a"), 75).unwrap(), "v");
    assert_eq!(kv.get::<Vec<u8>, String>(k("a"), 101), Err(Error::Expired));
    assert_eq!(kv.get::<Vec<u8>, String>(k("a"), 101), Err(Error::NotFound));
}
