//! The error taxonomy and boxed-store delegation.

use keyval::memory::Memory;
use keyval::types::{Store, TtlStore};
use keyval::Error;

#[test]
fn error_variants_are_distinct() {
    let all = [Error::NotFound, Error::Expired, Error::Utf8, Error::Codec];
    for (i, a) in all.iter().enumerate() {
        for (j, b) in all.iter().enumerate() {
            assert_eq!(i == j, a == b);
        }
    }
}

#[test]
fn error_descriptions() {
    assert_eq!(Error::NotFound.describe(), "not found");
    assert_eq!(Error::Expired.describe(), "expired");
    assert_eq!(Error::Utf8.describe(), "parse error");
    assert_eq!(Error::Codec.describe(), "encode error");
}

#[test]
fn boxed_store_delegates() {
    let mut b = Box::new(Memory::new());
    b.insert(vec![1u8], vec![2u8]).unwrap();
    assert_eq!(b.get(&vec![1u8], 0).unwrap(), vec![2u8]);
    b.insert_ttl(vec![3u8], 10, vec![4u8]).unwrap();
    b.touch(&vec![3u8], 20).unwrap();
    assert_eq!(b.get(&vec![3u8], 15).unwrap(), vec![4u8]);
    b.remove(&vec![1u8]).unwrap();
    assert_eq!(b.get(&vec![1u8], 0), Err(Error::NotFound));
}
