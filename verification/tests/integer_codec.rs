//! The order-preserving integer key encoding.

use keyval::types::Integer;

fn enc(x: u128) -> Vec<u8> {
    Integer::from_u128(x).to_vec()
}

#[test]
fn round_trip_small_values() {
    for x in [0u128, 1, 2, 255, 256, 65535, 65536] {
        assert_eq!(Integer::from_u128(x).to_u128(), x);
    }
}

#[test]
fn round_trip_large_values() {
    for x in [
        u128::from(u64::MAX),
        u128::from(u64::MAX) + 1,
        u128::MAX - 1,
        u128::MAX,
        0x0123_4567_89ab_cdef_0123_4567_89ab_cdef,
    ] {
        assert_eq!(Integer::from_u128(x).to_u128(), x);
    }
}

#[test]
fn encoding_is_sixteen_big_endian_bytes() {
    assert_eq!(enc(0), vec![0u8; 16]);
    let mut one = vec![0u8; 16];
    one[15] = 1;
    assert_eq!(enc(1), one);
    let mut x = vec![0u8; 16];
    x[14] = 1;
    x[15] = 2;
    assert_eq!(enc(0x0102), x);
    assert_eq!(enc(u128::MAX), vec![0xffu8; 16]);
}

#[test]
fn ordering_preserved_as_byte_order() {
    let pairs = [
        (0u128, 1u128),
        (1, 2),
        (255, 256),
        (65535, 65536),
        (u128::from(u64::MAX), u128::from(u64::MAX) + 1),
        (7, u128::MAX),
        (u128::MAX - 1, u128::MAX),
    ];
    for (a, b) in pairs {
        assert!(a < b);
        assert!(enc(a) < enc(b), "byte order must follow numeric order");
        assert!(enc(b) > enc(a));
    }
}

#[test]
fn from_slice_takes_first_sixteen_bytes() {
    let mut buf = vec![0u8; 20];
    buf[15] = 9;
    buf[16] = 0xAA;
    let i = Integer::from_slice(&buf);
    assert_eq!(i.to_u128(), 9);
    assert_eq!(i.to_vec(), buf[..16].to_vec());
}
