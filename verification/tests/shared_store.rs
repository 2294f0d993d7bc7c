//! The shared, lock-protected handle around a backend.

use keyval::keyval::KeyVal;
use keyval::keyval_ext::StoreExt;
use keyval::memory::Memory;
use keyval::ttl_wrap::TtlWrap;
use keyval::Error;

fn k(s: &str) -> Vec<u8> {
    s.as_bytes().to_vec()
}

#[test]
fn handles_share_one_backend() {
    let a = Memory::new().into_shared();
    let b = a.share();
    a.insert(k("x"), k("1")).unwrap();
    // the write through one handle is visible through the other
    assert_eq!(b.get(&k("x"), 0).unwrap(), k("1"));
    b.remove(&k("x")).unwrap();
    assert_eq!(a.get(&k("x"), 0), Err(Error::NotFound));
}

#[test]
fn shared_ttl_overlay() {
    let a = TtlWrap::new(Memory::new()).into_shared();
    let b = a.share();
    a.insert_ttl(k("x"), 50, k("1")).unwrap();
    assert_eq!(b.get(&k("x"), 50).unwrap(), k("1"));
    b.touch(&k("x"), 90).unwrap();
    assert_eq!(a.get(&k("x"), 75).unwrap(), k("1"));
    assert_eq!(a.get(&k("x"), 91), Err(Error::Expired));
    assert_eq!(b.get(&k("x"), 91), Err(Error::NotFound));
}

#[test]
fn shared_facade_round_trip() {
    let kv = KeyVal::new_shared(TtlWrap::new(Memory::new()).into_shared());
    let kv2 = kv.share();
    kv.insert(k("s"), String::from("hello")).unwrap();
    // the second façade sees the first one's write
    assert_eq!(kv2.get::<Vec<u8>, String>(k("s"), 0).unwrap(), "hello");
    kv2.insert_ttl(k("t"), 33u64, 50).unwrap();
    kv.touch(k("t"), 90).unwrap();
    assert_eq!(kv.get::<Vec<u8>, u64>(k("t"), 75).unwrap(), 33);
    assert_eq!(kv.get::<Vec<u8>, u64>(k("t"), 91), Err(Error::Expired));
    kv2.remove(&k("s")).unwrap();
    assert_eq!(kv.get::<Vec<u8>, String>(k("s"), 0), Err(Error::NotFound));
}

#[test]
fn shared_remove_is_idempotent() {
    let s = Memory::new().into_shared();
    assert_eq!(s.remove(&k("absent")), Ok(()));
    assert_eq!(s.remove(&k("absent")), Ok(()));
}

#[test]
fn shared_touch_absent_reports_not_found() {
    let s = Memory::new().into_shared();
    assert_eq!(s.touch(&k("absent"), 5), Err(Error::NotFound));
}
