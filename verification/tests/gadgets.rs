//! Unit tests of the numeric and bit gadgets: limb conversions, protocol
//! encoding, equality, selection, rotation and shift.

use circuits::utils::{BigUintTarget, bits_to_biguint_target, biguint_to_bits_target,
    biguint_is_equal, if_biguint, _right_rotate, _shr, uint32_to_bits, ssz_num_to_bits,
    ssz_num_from_bits};

fn u32_bits_be(x: u32) -> Vec<bool> {
    (0..32).map(|i| (x >> (31 - i)) & 1 == 1).collect()
}

#[test]
fn test_bits_to_biguint_target() {
    // 64 bits: most significant group 1, least significant group 0x80000000
    let mut bits = u32_bits_be(1);
    bits.extend(u32_bits_be(0x8000_0000));
    let big = bits_to_biguint_target(bits);
    assert_eq!(big.limbs, vec![0x8000_0000u32, 1u32]);
}

#[test]
fn test_biguint_to_bits_target() {
    let big = BigUintTarget { limbs: vec![0x8000_0000u32, 1u32] };
    let bits = biguint_to_bits_target(&big);
    let mut expected = u32_bits_be(1);
    expected.extend(u32_bits_be(0x8000_0000));
    assert_eq!(bits, expected);
}

#[test]
fn test_biguint_bits_roundtrip() {
    let big = BigUintTarget { limbs: vec![0xdead_beefu32, 0x1234_5678u32, 7u32] };
    let there = biguint_to_bits_target(&big);
    let back = bits_to_biguint_target(there);
    assert_eq!(back.limbs, big.limbs);

    let bits: Vec<bool> = (0..96).map(|i| i % 3 == 0).collect();
    let packed = bits_to_biguint_target(bits.clone());
    assert_eq!(biguint_to_bits_target(&packed), bits);
}

#[test]
fn test_uint32_to_bits() {
    let bits = uint32_to_bits(5);
    let expected = u32_bits_be(5);
    assert_eq!(bits, expected);
    assert!(bits[29] && !bits[30] && bits[31]);
    assert_eq!(uint32_to_bits(0x8000_0000)[0], true);
}

#[test]
fn test_biguint_is_equal() {
    let a = BigUintTarget { limbs: vec![1, 2, 3] };
    let b = BigUintTarget { limbs: vec![1, 2, 3] };
    let c = BigUintTarget { limbs: vec![1, 9, 3] };
    assert!(biguint_is_equal(&a, &b));
    assert!(!biguint_is_equal(&a, &c));
}

#[test]
fn test_if_biguint() {
    let x = BigUintTarget { limbs: vec![10, 11] };
    let y = BigUintTarget { limbs: vec![20, 21] };
    assert_eq!(if_biguint(true, &x, &y).limbs, vec![10, 11]);
    assert_eq!(if_biguint(false, &x, &y).limbs, vec![20, 21]);
}

#[test]
fn test_right_rotate() {
    let n: Vec<bool> = vec![true, true, false, false, true, false, true, false];
    let expected: Vec<bool> = vec![false, true, false, true, true, false, false, true];
    assert_eq!(_right_rotate(&n, 3), expected);
    assert_eq!(_right_rotate(&n, 0), n);
    assert_eq!(_right_rotate(&n, 8), n);
    assert_eq!(_right_rotate(&_right_rotate(&n, 3), 5), n);
}

#[test]
fn test_shr() {
    let n: Vec<bool> = vec![true, true, false, true];
    assert_eq!(_shr(&n, 2), vec![false, false, true, true]);
    assert_eq!(_shr(&n, 0), n);
    assert_eq!(_shr(&n, 4), vec![false; 4]);
    assert_eq!(_shr(&n, 9), vec![false; 4]);
}

#[test]
fn test_ssz_num_to_bits_little_endian() {
    // the value 1 in a 32-bit field sits in the first byte of the slot
    let one = BigUintTarget { limbs: vec![1] };
    let bits = ssz_num_to_bits(&one, 32);
    assert_eq!(bits.len(), 256);
    for (i, b) in bits.iter().enumerate() {
        assert_eq!(*b, i == 7);
    }
}

#[test]
fn test_ssz_roundtrip() {
    let num = BigUintTarget { limbs: vec![0xdead_beefu32, 0x1234_5678u32] };
    let bits = ssz_num_to_bits(&num, 64);
    let back = ssz_num_from_bits(&bits);
    assert_eq!(back.limbs, vec![0xdead_beefu32, 0x1234_5678u32, 0, 0, 0, 0, 0, 0]);
}

#[test]
fn test_ssz_roundtrip_full_slot() {
    // the largest supported width: all eight limbs of the 256-bit slot
    let limbs: Vec<u32> = (0..8).map(|i| 0x0101_0101u32.wrapping_mul(i + 1)).collect();
    let num = BigUintTarget { limbs: limbs.clone() };
    let bits = ssz_num_to_bits(&num, 256);
    let back = ssz_num_from_bits(&bits);
    assert_eq!(back.limbs, limbs);
}

#[test]
fn test_empty_bit_arrays() {
    let empty: Vec<bool> = Vec::new();
    assert_eq!(_right_rotate(&empty, 0), empty);
    assert_eq!(_shr(&empty, 3), empty);
    let zero = bits_to_biguint_target(Vec::new());
    assert_eq!(zero.limbs.len(), 0);
    assert_eq!(biguint_to_bits_target(&zero), empty);
}
