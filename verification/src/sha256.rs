//! The cryptographic hash at the heart of the circuit, as a plain value
//! computation: packing bit strings into bytes, the SHA-256 digest itself
//! (performed by the `sha2` crate and only named here), and the off-circuit
//! helper that hashes a zero-padded bit buffer to derive expected values.

use vstd::prelude::*;
use vstd::arithmetic::power2::{lemma2_to64, lemma_pow2_strictly_increases};
use vstd::arithmetic::div_mod::lemma_fundamental_div_mod;
use sha2::Digest;
use crate::binary::{be_val, u8_bit};
use crate::utils::{lemma_be_val_push, lemma_be_val_zero};

verus! {

/// The SHA-256 digest of a byte string: a function of the message alone,
/// whose definition is left to the hash implementation.
pub uninterp spec fn sha256_spec(msg: Seq<u8>) -> Seq<u8>;

/// Relies on sha2's `Sha256` through the `Digest` trait: one full SHA-256
/// digest of the message. The digest is always 32 bytes and depends on the
/// message bytes alone.
#[verifier::external_body]
pub(crate) fn sha256_digest(msg: &Vec<u8>) -> (r: Vec<u8>)
    ensures
        r@ == sha256_spec(msg@),
        r@.len() == 32,
{
    sha2::Sha256::digest(msg.as_slice()).to_vec()
}

/// The bytes packed from a bit string, 8 bits per byte, most significant
/// bit first within each byte.
pub open spec fn bits_to_bytes_spec(bits: Seq<bool>) -> Seq<u8>
    recommends
        bits.len() % 8 == 0,
{
    Seq::new(bits.len() / 8, |j: int| be_val(bits.subrange(8 * j, 8 * j + 8)) as u8)
}

/// The bit string of a byte string, most significant bit of each byte first.
pub open spec fn bytes_to_bits_spec(bytes: Seq<u8>) -> Seq<bool> {
    Seq::new(8 * bytes.len(), |i: int| u8_bit(bytes[i / 8], (7 - i % 8) as u8))
}

/// A byte string zero-filled on the right up to a 64-byte hash block.
pub open spec fn pad64(bytes: Seq<u8>) -> Seq<u8>
    recommends
        bytes.len() <= 64,
{
    bytes + Seq::new((64 - bytes.len()) as nat, |_i: int| 0u8)
}

/// The digest bits of a bit buffer packed into bytes and zero-padded to one
/// 64-byte block: what the off-circuit hasher returns.
pub open spec fn hash_bit_array_spec(bits: Seq<bool>) -> Seq<bool>
    recommends
        bits.len() % 8 == 0,
        bits.len() <= 512,
{
    bytes_to_bits_spec(sha256_spec(pad64(bits_to_bytes_spec(bits))))
}

/// Packs a bit string into bytes, 8 bits per byte, most significant first.
pub fn bits_to_bytes(bits: &Vec<bool>) -> (r: Vec<u8>)
    requires
        bits@.len() % 8 == 0,
    ensures
        r@ == bits_to_bytes_spec(bits@),
{
    let len = bits.len();
    let n = len / 8;
    proof {
        lemma_fundamental_div_mod(len as int, 8);
    }
    let mut bytes: Vec<u8> = Vec::new();
    let mut j: usize = 0;
    while j < n
        invariant
            len == bits@.len(),
            len == 8 * n,
            j <= n,
            bytes@.len() == j,
            forall|k: int| 0 <= k < j ==> bytes@[k] == bits_to_bytes_spec(bits@)[k],
        decreases n - j,
    {
        let mut acc: u8 = 0;
        let mut t: usize = 0;
        while t < 8
            invariant
                len == bits@.len(),
                len == 8 * n,
                j < n,
                t <= 8,
                acc == be_val(bits@.subrange(8 * j, 8 * j + t)),
            decreases 8 - t,
        {
            let ghost prefix = bits@.subrange(8 * j, 8 * j + t);
            proof {
                crate::binary::lemma_be_val_bits(prefix);
                if t < 7 {
                    lemma_pow2_strictly_increases(t as nat, 7);
                }
                lemma2_to64();
                assert(bits@.subrange(8 * j, 8 * j + t + 1) =~= prefix.push(bits@[8 * j + t]));
                lemma_be_val_push(prefix, bits@[8 * j + t]);
            }
            let bit = bits[8 * j + t];
            acc = 2 * acc + (if bit {
                1
            } else {
                0
            });
            t += 1;
        }
        bytes.push(acc);
        j += 1;
        assert(bytes@[j - 1] == bits_to_bytes_spec(bits@)[j - 1]);
    }
    assert(bytes@ =~= bits_to_bytes_spec(bits@));
    bytes
}

/// Unpacks a byte string into bits, most significant bit of each byte first.
pub fn bytes_to_bits(bytes: &Vec<u8>) -> (r: Vec<bool>)
    ensures
        r@ == bytes_to_bits_spec(bytes@),
{
    let n = bytes.len();
    let mut bits: Vec<bool> = Vec::new();
    let mut j: usize = 0;
    while j < n
        invariant
            n == bytes@.len(),
            j <= n,
            bits@.len() == 8 * j,
            forall|k: int| 0 <= k < 8 * j ==> bits@[k] == bytes_to_bits_spec(bytes@)[k],
        decreases n - j,
    {
        let byte = bytes[j];
        let mut t: usize = 0;
        while t < 8
            invariant
                n == bytes@.len(),
                j < n,
                byte == bytes@[j as int],
                t <= 8,
                bits@.len() == 8 * j + t,
                forall|k: int| 0 <= k < 8 * j + t ==> bits@[k] == bytes_to_bits_spec(bytes@)[k],
            decreases 8 - t,
        {
            bits.push((byte >> ((7 - t) as u8)) & 1 == 1);
            proof {
                let k = 8 * j + t;
                assert(k / 8 == j && k % 8 == t) by (nonlinear_arith)
                    requires
                        k == 8 * j + t,
                        0 <= t < 8,
                        0 <= j,
                ;
                assert(bits@[k as int] == bytes_to_bits_spec(bytes@)[k as int]);
            }
            t += 1;
        }
        j += 1;
    }
    assert(bits@ =~= bytes_to_bits_spec(bytes@));
    bits
}

/// The bits meant by a sequence of "0"/"1" characters.
pub open spec fn strs_to_bits(s: Seq<&str>) -> Seq<bool> {
    Seq::new(s.len(), |i: int| s[i]@ == "1"@)
}

/// Hashes a bit buffer given as "0"/"1" strings: the bits are packed 8 per
/// byte, most significant first, the buffer is zero-padded to 64 bytes
/// whatever its length, and the digest comes back as one "0"/"1" string per
/// digest bit, most significant bit of each digest byte first.
pub fn hash_bit_array(validator_pubkey: Vec<&str>) -> (r: Vec<String>)
    requires
        forall|i: int|
            0 <= i < validator_pubkey@.len() ==> (validator_pubkey@[i]@ == "0"@
                || validator_pubkey@[i]@ == "1"@),
        validator_pubkey@.len() % 8 == 0,
        validator_pubkey@.len() <= 512,
    ensures
        r@.len() == 256,
        forall|i: int|
            0 <= i < 256 ==> r@[i]@ == (if hash_bit_array_spec(strs_to_bits(validator_pubkey@))[i] {
                "1"@
            } else {
                "0"@
            }),
{
    proof {
        reveal_strlit("0");
        reveal_strlit("1");
    }
    let n = validator_pubkey.len();
    let mut bits: Vec<bool> = Vec::new();
    let mut i: usize = 0;
    while i < n
        invariant
            n == validator_pubkey@.len(),
            forall|k: int|
                0 <= k < n ==> (validator_pubkey@[k]@ == "0"@ || validator_pubkey@[k]@ == "1"@),
            i <= n,
            bits@.len() == i,
            forall|k: int| 0 <= k < i ==> bits@[k] == strs_to_bits(validator_pubkey@)[k],
        decreases n - i,
    {
        proof {
            reveal_strlit("0");
            reveal_strlit("1");
        }
        let s = validator_pubkey[i];
        let bit = s.get_char(0) == '1';
        bits.push(bit);
        i += 1;
    }
    assert(bits@ =~= strs_to_bits(validator_pubkey@));
    let mut byte_string = bits_to_bytes(&bits);
    while byte_string.len() < 64
        invariant
            bits_to_bytes_spec(bits@).len() <= byte_string@.len() <= 64,
            byte_string@.subrange(0, bits_to_bytes_spec(bits@).len() as int) == bits_to_bytes_spec(
                bits@),
            forall|k: int| bits_to_bytes_spec(bits@).len() <= k < byte_string@.len()
                ==> byte_string@[k] == 0u8,
        decreases 64 - byte_string.len(),
    {
        byte_string.push(0);
        assert(byte_string@.subrange(0, bits_to_bytes_spec(bits@).len() as int)
            =~= byte_string@.drop_last().subrange(0, bits_to_bytes_spec(bits@).len() as int));
    }
    assert(byte_string@ =~= pad64(bits_to_bytes_spec(bits@)));
    let result = sha256_digest(&byte_string);
    let digest_bits = bytes_to_bits(&result);
    let mut out: Vec<String> = Vec::new();
    let mut i: usize = 0;
    while i < digest_bits.len()
        invariant
            digest_bits@.len() == 256,
            digest_bits@ == hash_bit_array_spec(strs_to_bits(validator_pubkey@)),
            i <= 256,
            out@.len() == i,
            forall|k: int|
                0 <= k < i ==> out@[k]@ == (if digest_bits@[k] {
                    "1"@
                } else {
                    "0"@
                }),
        decreases digest_bits.len() - i,
    {
        if digest_bits[i] {
            out.push(String::from_str("1"));
        } else {
            out.push(String::from_str("0"));
        }
        i += 1;
    }
    out
}

} // verus!
