use create2crunch::bytes::{to_fixed_20, to_fixed_32, to_fixed_4, to_fixed_47, u64_to_fixed_6, u64_to_le_fixed_8};

#[test]
fn fixed_arrays_take_leading_bytes() {
    let v: Vec<u8> = (0u8..50).collect();
    let a20 = to_fixed_20(v.clone());
    assert_eq!(a20.to_vec(), (0u8..20).collect::<Vec<u8>>());
    let a32 = to_fixed_32(v.clone());
    assert_eq!(a32.to_vec(), (0u8..32).collect::<Vec<u8>>());
    let a47 = to_fixed_47(&v);
    assert_eq!(a47.to_vec(), (0u8..47).collect::<Vec<u8>>());
    let a4 = to_fixed_4(&v);
    assert_eq!(a4, [0, 1, 2, 3]);
}

#[test]
fn six_byte_nonce_is_big_endian_low_48_bits() {
    assert_eq!(u64_to_fixed_6(&0x0102_0304_0506), [1, 2, 3, 4, 5, 6]);
    assert_eq!(u64_to_fixed_6(&0xffff_0000_0000_0001), [0, 0, 0, 0, 0, 1]);
    assert_eq!(u64_to_fixed_6(&0), [0; 6]);
    assert_eq!(u64_to_fixed_6(&0xffff_ffff_ffff), [0xff; 6]);
}

#[test]
fn distinct_nonces_give_distinct_segments() {
    let a = u64_to_fixed_6(&0x0000_0000_0100);
    let b = u64_to_fixed_6(&0x0000_0000_0001);
    assert_ne!(a, b);
}

#[test]
fn eight_byte_little_endian() {
    let x: u64 = 0x0102_0304_0506_0708;
    assert_eq!(u64_to_le_fixed_8(&x), [8, 7, 6, 5, 4, 3, 2, 1]);
    assert_eq!(u64_to_le_fixed_8(&x), x.to_le_bytes());
    assert_eq!(u64::from_le_bytes(u64_to_le_fixed_8(&x)), x);
}
