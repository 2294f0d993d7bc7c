//! The in-memory backend against the raw and TTL contracts.

use keyval::memory::Memory;
use keyval::types::{Store, TtlStore};
use keyval::Error;

fn k(s: &str) -> Vec<u8> {
    s.as_bytes().to_vec()
}

#[test]
fn insert_then_get_returns_value() {
    let mut m = Memory::new();
    m.insert(k("a"), k("hello")).unwrap();
    assert_eq!(m.get(&k("a"), 100).unwrap(), k("hello"));
}

#[test]
fn get_absent_reports_not_found() {
    let mut m = Memory::new();
    assert_eq!(m.get(&k("missing"), 0), Err(Error::NotFound));
}

#[test]
fn insert_overwrites_previous_value() {
    let mut m = Memory::new();
    m.insert(k("a"), k("one")).unwrap();
    m.insert(k("a"), k("two")).unwrap();
    assert_eq!(m.get(&k("a"), 0).unwrap(), k("two"));
}

#[test]
fn expired_entry_reports_expired_then_not_found() {
    let mut m = Memory::new();
    m.insert_ttl(k("a"), 50, k("v")).unwrap();
    // first read past the expiry reports Expired and purges the entry
    assert_eq!(m.get(&k("a"), 51), Err(Error::Expired));
    // the entry is gone: a second read reports NotFound
    assert_eq!(m.get(&k("a"), 51), Err(Error::NotFound));
}

#[test]
fn entry_alive_until_expiry_passes() {
    let mut m = Memory::new();
    m.insert_ttl(k("a"), 50, k("v")).unwrap();
    assert_eq!(m.get(&k("a"), 50).unwrap(), k("v"));
}

#[test]
fn entry_without_ttl_never_expires() {
    let mut m = Memory::new();
    m.insert(k("a"), k("v")).unwrap();
    assert_eq!(m.get(&k("a"), u64::MAX).unwrap(), k("v"));
}

#[test]
fn touch_extends_lifetime() {
    let mut m = Memory::new();
    m.insert_ttl(k("a"), 50, k("v")).unwrap();
    m.touch(&k("a"), 100).unwrap();
    // after the old expiry but before the new one the value is still there
    assert_eq!(m.get(&k("a"), 75).unwrap(), k("v"));
}

#[test]
fn touch_absent_reports_not_found() {
    let mut m = Memory::new();
    assert_eq!(m.touch(&k("nope"), 100), Err(Error::NotFound));
}

#[test]
fn remove_is_idempotent() {
    let mut m = Memory::new();
    assert_eq!(m.remove(&k("absent")), Ok(()));
    m.insert(k("a"), k("v")).unwrap();
    assert_eq!(m.remove(&k("a")), Ok(()));
    assert_eq!(m.remove(&k("a")), Ok(()));
    assert_eq!(m.get(&k("a"), 0), Err(Error::NotFound));
}

#[test]
fn keys_are_independent() {
    let mut m = Memory::new();
    m.insert(k("a"), k("1")).unwrap();
    m.insert(k("b"), k("2")).unwrap();
    m.remove(&k("a")).unwrap();
    assert_eq!(m.get(&k("a"), 0), Err(Error::NotFound));
    assert_eq!(m.get(&k("b"), 0).unwrap(), k("2"));
}
