//! Bit-level model of the circuit's number representations.
//!
//! A bit array is a `Seq<bool>` with the most significant bit first; a big
//! integer is a sequence of 32-bit limbs with limb 0 least significant. The
//! spec functions here give the meaning of every conversion the gadgets
//! perform, and the lemmas relate a 32-bit word to its bit string in both
//! directions.

use vstd::prelude::*;
use vstd::arithmetic::power2::{pow2, lemma2_to64, lemma_pow2_unfold, lemma_pow2_pos,
    lemma_pow2_strictly_increases};
use vstd::arithmetic::div_mod::{lemma_fundamental_div_mod, lemma_fundamental_div_mod_converse,
    lemma_small_mod};

verus! {

/// Bit `i` of `x`, counting from the least significant end.
pub open spec fn u32_bit(x: u32, i: u32) -> bool {
    (x >> i) & 1 == 1
}

/// Bit `i` of a byte, counting from the least significant end.
pub open spec fn u8_bit(x: u8, i: u8) -> bool {
    (x >> i) & 1 == 1
}

/// The numeric value of a big-endian bit string: twice the value of the
/// front, plus the last bit.
pub open spec fn be_val(b: Seq<bool>) -> nat
    decreases b.len(),
{
    if b.len() == 0 {
        0
    } else {
        2 * be_val(b.drop_last()) + (if b.last() {
            1nat
        } else {
            0nat
        })
    }
}

/// The big-endian bit string of a 32-bit word.
pub open spec fn u32_be_bits(x: u32) -> Seq<bool> {
    Seq::new(32, |i: int| u32_bit(x, (31 - i) as u32))
}

/// The value of a bit string of at most 32 bits is below `pow2(len)`, and
/// every one of its bits can be read back from that value.
pub proof fn lemma_be_val_bits(b: Seq<bool>)
    requires
        b.len() <= 32,
    ensures
        be_val(b) < pow2(b.len()),
        forall|i: int|
            0 <= i < b.len() ==> u32_bit(be_val(b) as u32, (b.len() - 1 - i) as u32) == b[i],
    decreases b.len(),
{
    if b.len() == 0 {
        lemma2_to64();
    } else {
        let f = b.drop_last();
        let c = b.last();
        let k = b.len() as int;
        lemma_be_val_bits(f);
        lemma_pow2_unfold(b.len());
        if k - 1 < 31 {
            lemma_pow2_strictly_increases((k - 1) as nat, 31);
        }
        lemma2_to64();
        let vp: u32 = be_val(f) as u32;
        let cb: u32 = if c {
            1
        } else {
            0
        };
        assert(be_val(b) == 2 * be_val(f) + cb);
        assert(be_val(b) < pow2(b.len()));
        let x: u32 = be_val(b) as u32;
        assert(x == ((2 * vp + cb) as u32));
        assert((x >> 0u32) & 1 == cb) by (bit_vector)
            requires
                x == ((2 * vp + cb) as u32),
                cb < 2,
                vp < 0x80000000,
        ;
        assert(forall|t: u32|
            t < 31 ==> ((x >> ((t + 1) as u32)) & 1) == ((vp >> t) & 1)) by (bit_vector)
            requires
                x == ((2 * vp + cb) as u32),
                cb < 2,
                vp < 0x80000000,
        ;
        assert forall|i: int| 0 <= i < k implies u32_bit(x, (k - 1 - i) as u32) == b[i] by {
            if i == k - 1 {
                assert(u32_bit(x, 0) == c);
            } else {
                let t = (k - 2 - i) as u32;
                assert(((x >> ((t + 1) as u32)) & 1) == ((vp >> t) & 1));
                assert(u32_bit(vp, t) == f[i]);
            }
        }
    }
}

/// Reading the low `k` bits of a word, most significant first, recovers the
/// word's value modulo `pow2(k)`.
pub proof fn lemma_bits_be_val(x: u32, k: nat)
    requires
        k <= 32,
    ensures
        be_val(Seq::new(k, |i: int| u32_bit(x, (k - 1 - i) as u32))) == (x as nat) % pow2(k),
    decreases k,
{
    let s = Seq::new(k, |i: int| u32_bit(x, (k - 1 - i) as u32));
    if k == 0 {
        lemma2_to64();
        assert((x as nat) % 1nat == 0);
    } else {
        let y = x >> 1u32;
        lemma_bits_be_val(y, (k - 1) as nat);
        let f = Seq::new((k - 1) as nat, |i: int| u32_bit(y, (k - 2 - i) as u32));
        assert(forall|t: u32| t < 31 ==> ((x >> ((t + 1) as u32)) & 1) == ((y >> t) & 1))
            by (bit_vector)
            requires
                y == x >> 1u32,
        ;
        assert(s.drop_last() =~= f);
        assert(y == x / 2 && (x & 1) == x % 2 && ((x >> 0u32) & 1) == (x & 1)) by (bit_vector)
            requires
                y == x >> 1u32,
        ;
        assert(s.last() == u32_bit(x, 0));
        let cb: nat = if s.last() {
            1nat
        } else {
            0nat
        };
        assert(cb == (x as int) % 2);
        lemma_pow2_unfold(k);
        lemma_pow2_pos((k - 1) as nat);
        let m = pow2((k - 1) as nat) as int;
        let n = x as int;
        let q = (n / 2) / m;
        let r = (n / 2) % m;
        lemma_fundamental_div_mod(n / 2, m);
        lemma_fundamental_div_mod(n, 2);
        assert(q * (2 * m) == 2 * (q * m)) by (nonlinear_arith);
        assert(n == q * (2 * m) + (2 * r + n % 2));
        lemma_fundamental_div_mod_converse(n, 2 * m, q, 2 * r + n % 2);
        assert(be_val(s) == 2 * be_val(f) + cb);
        assert(be_val(f) == (y as nat) % pow2((k - 1) as nat));
        assert(be_val(s) == (x as nat) % pow2(k));
    }
}

/// The full round trip on one word: the value of a word's 32 bits is the word.
pub proof fn lemma_u32_bits_roundtrip(x: u32)
    ensures
        be_val(u32_be_bits(x)) == x,
{
    lemma_bits_be_val(x, 32);
    lemma2_to64();
    lemma_small_mod(x as nat, pow2(32));
    assert(u32_be_bits(x) =~= Seq::new(32, |i: int| u32_bit(x, (32 - 1 - i) as u32)));
}

/// The big-endian bit string of a limb sequence: limbs are emitted from the
/// most significant down, each as its 32 bits, most significant bit first.
pub open spec fn limbs_to_bits(limbs: Seq<u32>) -> Seq<bool> {
    Seq::new(32 * limbs.len(), |i: int| u32_bit(limbs[limbs.len() - 1 - i / 32], (31 - i % 32) as u32))
}

/// The limb sequence of a big-endian bit string whose length is a multiple of
/// 32: consecutive 32-bit groups from the most significant end become limbs
/// in reverse order, so the least significant group is limb 0.
pub open spec fn bits_to_limbs(bits: Seq<bool>) -> Seq<u32>
    recommends
        bits.len() % 32 == 0,
{
    Seq::new(bits.len() / 32, |j: int|
        be_val(bits.subrange((bits.len() - 32 * j - 32) as int, (bits.len() - 32 * j) as int)) as u32)
}

/// Splitting a limb sequence into bits and regrouping them restores the limbs.
pub proof fn lemma_limbs_bits_roundtrip(limbs: Seq<u32>)
    ensures
        bits_to_limbs(limbs_to_bits(limbs)).len() == limbs.len(),
        bits_to_limbs(limbs_to_bits(limbs)) == limbs,
{
    let bits = limbs_to_bits(limbs);
    let l = limbs.len() as int;
    assert(bits.len() == 32 * l);
    assert forall|j: int| 0 <= j < l implies bits_to_limbs(bits)[j] == limbs[j] by {
        let lo = 32 * l - 32 * j - 32;
        let group = bits.subrange(lo, lo + 32);
        assert forall|t: int| 0 <= t < 32 implies group[t] == u32_be_bits(limbs[j])[t] by {
            let i = lo + t;
            assert((lo + t) / 32 == l - 1 - j && (lo + t) % 32 == t) by (nonlinear_arith)
                requires
                    lo == 32 * l - 32 * j - 32,
                    0 <= t < 32,
                    0 <= j < l,
            ;
            assert(bits[i] == u32_bit(limbs[j], (31 - t) as u32));
        }
        assert(group =~= u32_be_bits(limbs[j]));
        lemma_u32_bits_roundtrip(limbs[j]);
    }
    assert(bits_to_limbs(bits) =~= limbs);
}

/// Regrouping a bit string of length `32 * L` into limbs and expanding the
/// limbs again restores the bit string.
pub proof fn lemma_bits_limbs_roundtrip(bits: Seq<bool>)
    requires
        bits.len() % 32 == 0,
    ensures
        limbs_to_bits(bits_to_limbs(bits)).len() == bits.len(),
        limbs_to_bits(bits_to_limbs(bits)) == bits,
{
    let limbs = bits_to_limbs(bits);
    let l = limbs.len() as int;
    vstd::arithmetic::div_mod::lemma_fundamental_div_mod(bits.len() as int, 32);
    assert(bits.len() == 32 * l);
    let out = limbs_to_bits(limbs);
    assert forall|i: int| 0 <= i < 32 * l implies out[i] == bits[i] by {
        let j = l - 1 - i / 32;
        let t = i % 32;
        assert(0 <= i / 32 < l && 0 <= t < 32) by (nonlinear_arith)
            requires
                0 <= i < 32 * l,
                t == i % 32,
        ;
        let lo = 32 * l - 32 * j - 32;
        let group = bits.subrange(lo, lo + 32);
        assert(out[i] == u32_bit(limbs[j], (31 - t) as u32));
        assert(limbs[j] == be_val(group) as u32);
        lemma_be_val_bits(group);
        assert(u32_bit(be_val(group) as u32, (32 - 1 - t) as u32) == group[t]);
        assert(lo == 32 * (i / 32) && lo + t == i) by (nonlinear_arith)
            requires
                lo == 32 * l - 32 * (l - 1 - i / 32) - 32,
                t == i % 32,
                0 <= i < 32 * l,
        ;
        assert(group[t] == bits[i]);
    }
    assert(out =~= bits);
}

/// Byte-order reversal of a bit string whose length is a multiple of 8: the
/// 8-bit groups change places, the bits inside each group do not.
pub open spec fn rev8(b: Seq<bool>) -> Seq<bool>
    recommends
        b.len() % 8 == 0,
{
    Seq::new(b.len(), |i: int| b[b.len() - 8 - 8 * (i / 8) + i % 8])
}

/// Reversing the byte order twice restores the bit string.
pub proof fn lemma_rev8_involution(b: Seq<bool>)
    requires
        b.len() % 8 == 0,
    ensures
        rev8(rev8(b)) == b,
{
    let n = b.len() as int;
    assert forall|i: int| 0 <= i < n implies rev8(rev8(b))[i] == b[i] by {
        let i2 = n - 8 - 8 * (i / 8) + i % 8;
        assert(0 <= i2 < n && i2 / 8 == n / 8 - 1 - i / 8 && i2 % 8 == i % 8) by (nonlinear_arith)
            requires
                i2 == n - 8 - 8 * (i / 8) + i % 8,
                0 <= i < n,
                n % 8 == 0,
        ;
        assert(rev8(rev8(b))[i] == rev8(b)[i2]);
        assert(rev8(b)[i2] == b[n - 8 - 8 * (i2 / 8) + i2 % 8]);
        assert(n - 8 - 8 * (n / 8 - 1 - i / 8) + i % 8 == i) by (nonlinear_arith)
            requires
                0 <= i < n,
                n % 8 == 0,
        ;
    }
    assert(rev8(rev8(b)) =~= b);
}

} // verus!
