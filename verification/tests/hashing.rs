//! Tests of the off-circuit hasher against the hash implementation it
//! relies on, and of the padding convention.

use sha2::Digest;
use circuits::sha256::hash_bit_array;

fn byte_bits(byte: u8) -> Vec<bool> {
    (0..8).map(|i| (byte >> (7 - i)) & 1 == 1).collect()
}

#[test]
fn test_hash_bit_array_zero_block() {
    // 512 zero bits pack to the all-zero 64-byte block
    let input: Vec<&str> = vec!["0"; 512];
    let out = hash_bit_array(input);
    let expected_digest = sha2::Sha256::digest(&[0u8; 64]);
    let expected: Vec<String> = expected_digest
        .iter()
        .flat_map(|b| byte_bits(*b))
        .map(|bit| if bit { "1".to_string() } else { "0".to_string() })
        .collect();
    assert_eq!(out, expected);
}

#[test]
fn test_hash_bit_array_pads_short_input() {
    // a 384-bit input is packed to 48 bytes and zero-padded to 64
    let mut bytes = [0u8; 64];
    for (i, b) in bytes.iter_mut().enumerate().take(48) {
        *b = (i as u8).wrapping_mul(37).wrapping_add(5);
    }
    let bit_strings: Vec<String> = bytes[..48]
        .iter()
        .flat_map(|b| byte_bits(*b))
        .map(|bit| if bit { "1".to_string() } else { "0".to_string() })
        .collect();
    let input: Vec<&str> = bit_strings.iter().map(|s| s.as_str()).collect();
    let out = hash_bit_array(input);
    let expected_digest = sha2::Sha256::digest(&bytes);
    let expected: Vec<String> = expected_digest
        .iter()
        .flat_map(|b| byte_bits(*b))
        .map(|bit| if bit { "1".to_string() } else { "0".to_string() })
        .collect();
    assert_eq!(out, expected);
}
