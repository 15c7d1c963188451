//! The numeric and bit gadgets: conversions between big-endian bit arrays,
//! 32-bit limb encodings and the protocol's little-endian byte order, plus
//! limb-wise equality and branchless selection.
//!
//! All of them are total functions on plain values; a circuit-shape fault
//! (a limb-count mismatch, a width that is not a multiple of 32, an overlong
//! slot) is a build-time fault and therefore a precondition here.

use vstd::prelude::*;
use vstd::arithmetic::power2::{pow2, lemma2_to64, lemma_pow2_strictly_increases};
use vstd::arithmetic::div_mod::{lemma_fundamental_div_mod, lemma_mod_multiples_basic,
    lemma_small_mod, lemma_mod_multiples_vanish};
use vstd::arithmetic::div_mod::{lemma_add_mod_noop_right, lemma_mod_division_less_than_divisor};
use crate::binary::{u32_bit, be_val, u32_be_bits, limbs_to_bits, bits_to_limbs, rev8,
    lemma_be_val_bits, lemma_rev8_involution, lemma_limbs_bits_roundtrip};

verus! {

/// A big integer held as ordered 32-bit limbs, limb 0 least significant.
pub struct BigUintTarget {
    pub limbs: Vec<u32>,
}

/// Extending a big-endian bit string by one bit doubles its value and adds
/// the new bit.
pub proof fn lemma_be_val_push(s: Seq<bool>, c: bool)
    ensures
        be_val(s.push(c)) == 2 * be_val(s) + (if c {
            1nat
        } else {
            0nat
        }),
{
    assert(s.push(c).drop_last() =~= s);
    assert(s.push(c).last() == c);
}

/// An all-zero bit string has value zero.
pub proof fn lemma_be_val_zero(s: Seq<bool>)
    requires
        forall|i: int| 0 <= i < s.len() ==> !s[i],
    ensures
        be_val(s) == 0,
    decreases s.len(),
{
    if s.len() > 0 {
        lemma_be_val_zero(s.drop_last());
    }
}

/// Interprets `bits_target` as one big-endian binary number and splits it
/// into 32-bit limbs, least significant group first as limb 0.
pub fn bits_to_biguint_target(bits_target: Vec<bool>) -> (r: BigUintTarget)
    requires
        bits_target@.len() % 32 == 0,
    ensures
        r.limbs@ == bits_to_limbs(bits_target@),
{
    let bit_len = bits_target.len();
    let limb_count = bit_len / 32;
    proof {
        lemma_fundamental_div_mod(bit_len as int, 32);
    }
    let mut limbs: Vec<u32> = Vec::new();
    let mut j: usize = 0;
    while j < limb_count
        invariant
            bit_len == bits_target@.len(),
            bit_len == 32 * limb_count,
            j <= limb_count,
            limbs@.len() == j,
            forall|k: int| 0 <= k < j ==> limbs@[k] == bits_to_limbs(bits_target@)[k],
        decreases limb_count - j,
    {
        let lo = bit_len - 32 * j - 32;
        let mut acc: u32 = 0;
        let mut t: usize = 0;
        while t < 32
            invariant
                bit_len == bits_target@.len(),
                bit_len == 32 * limb_count,
                j < limb_count,
                lo == bit_len - 32 * j - 32,
                t <= 32,
                acc == be_val(bits_target@.subrange(lo as int, lo + t)),
            decreases 32 - t,
        {
            let ghost prefix = bits_target@.subrange(lo as int, lo + t);
            proof {
                lemma_be_val_bits(prefix);
                if t < 31 {
                    lemma_pow2_strictly_increases(t as nat, 31);
                }
                lemma2_to64();
                assert(bits_target@.subrange(lo as int, lo + t + 1) =~= prefix.push(
                    bits_target@[lo + t]));
                lemma_be_val_push(prefix, bits_target@[lo + t]);
            }
            let bit = bits_target[lo + t];
            acc = 2 * acc + (if bit {
                1
            } else {
                0
            });
            t += 1;
        }
        limbs.push(acc);
        j += 1;
        assert(limbs@[j - 1] == bits_to_limbs(bits_target@)[j - 1]);
    }
    assert(limbs@ =~= bits_to_limbs(bits_target@));
    BigUintTarget { limbs }
}

/// The inverse conversion: emits limbs from most significant to least
/// significant, each expanded to 32 bits, most significant bit first.
pub fn biguint_to_bits_target(a: &BigUintTarget) -> (r: Vec<bool>)
    ensures
        r@ == limbs_to_bits(a.limbs@),
{
    let l = a.limbs.len();
    let mut res: Vec<bool> = Vec::new();
    let mut i: usize = 0;
    while i < l
        invariant
            l == a.limbs@.len(),
            i <= l,
            res@.len() == 32 * i,
            forall|k: int| 0 <= k < 32 * i ==> res@[k] == limbs_to_bits(a.limbs@)[k],
        decreases l - i,
    {
        let limb = a.limbs[l - 1 - i];
        let mut t: usize = 0;
        while t < 32
            invariant
                l == a.limbs@.len(),
                i < l,
                limb == a.limbs@[l - 1 - i],
                t <= 32,
                res@.len() == 32 * i + t,
                forall|k: int| 0 <= k < 32 * i + t ==> res@[k] == limbs_to_bits(a.limbs@)[k],
            decreases 32 - t,
        {
            let bit = (limb >> ((31 - t) as u32)) & 1 == 1;
            res.push(bit);
            proof {
                let k = 32 * i + t;
                assert(k / 32 == i && k % 32 == t) by (nonlinear_arith)
                    requires
                        k == 32 * i + t,
                        0 <= t < 32,
                        0 <= i,
                ;
                assert(res@[k as int] == limbs_to_bits(a.limbs@)[k as int]);
            }
            t += 1;
        }
        i += 1;
    }
    assert(res@ =~= limbs_to_bits(a.limbs@));
    res
}

/// True exactly when the two big integers agree limb for limb. The limb
/// counts must match; a mismatch was a shape fault in the circuit.
pub fn biguint_is_equal(a: &BigUintTarget, b: &BigUintTarget) -> (r: bool)
    requires
        a.limbs@.len() == b.limbs@.len(),
    ensures
        r == (a.limbs@ == b.limbs@),
{
    let n = a.limbs.len();
    let mut all_equal = true;
    let mut i: usize = 0;
    while i < n
        invariant
            n == a.limbs@.len(),
            n == b.limbs@.len(),
            i <= n,
            all_equal == (forall|k: int| 0 <= k < i ==> a.limbs@[k] == b.limbs@[k]),
        decreases n - i,
    {
        let equal = a.limbs[i] == b.limbs[i];
        all_equal = all_equal && equal;
        i += 1;
    }
    proof {
        if all_equal {
            assert(a.limbs@ =~= b.limbs@);
        }
    }
    all_equal
}

/// Each limb of `x`, or zero: the scalar product of a big integer with a
/// boolean.
fn mul_biguint_by_bool(x: &BigUintTarget, b: bool) -> (r: BigUintTarget)
    ensures
        r.limbs@.len() == x.limbs@.len(),
        forall|k: int|
            0 <= k < x.limbs@.len() ==> r.limbs@[k] == (if b {
                x.limbs@[k]
            } else {
                0u32
            }),
{
    let n = x.limbs.len();
    let mut limbs: Vec<u32> = Vec::new();
    let mut i: usize = 0;
    while i < n
        invariant
            n == x.limbs@.len(),
            i <= n,
            limbs@.len() == i,
            forall|k: int|
                0 <= k < i ==> limbs@[k] == (if b {
                    x.limbs@[k]
                } else {
                    0u32
                }),
        decreases n - i,
    {
        limbs.push(
            if b {
                x.limbs[i]
            } else {
                0
            },
        );
        i += 1;
    }
    BigUintTarget { limbs }
}

/// Branchless selection between two big integers of equal limb count:
/// `x` scaled by the condition plus `y` scaled by its negation. Exactly one
/// of the two scaled operands is nonzero, so the limb-wise sum never carries
/// and the carry limb the addition would produce is zero and is dropped.
pub fn if_biguint(b: bool, x: &BigUintTarget, y: &BigUintTarget) -> (r: BigUintTarget)
    requires
        x.limbs@.len() == y.limbs@.len(),
    ensures
        r.limbs@ == (if b {
            x.limbs@
        } else {
            y.limbs@
        }),
{
    let maybe_x = mul_biguint_by_bool(x, b);
    let maybe_y = mul_biguint_by_bool(y, !b);
    let n = maybe_x.limbs.len();
    let mut limbs: Vec<u32> = Vec::new();
    let mut i: usize = 0;
    while i < n
        invariant
            n == x.limbs@.len(),
            n == y.limbs@.len(),
            n == maybe_x.limbs@.len(),
            n == maybe_y.limbs@.len(),
            forall|k: int|
                0 <= k < n ==> maybe_x.limbs@[k] == (if b {
                    x.limbs@[k]
                } else {
                    0u32
                }),
            forall|k: int|
                0 <= k < n ==> maybe_y.limbs@[k] == (if !b {
                    y.limbs@[k]
                } else {
                    0u32
                }),
            i <= n,
            limbs@.len() == i,
            forall|k: int|
                0 <= k < i ==> limbs@[k] == (if b {
                    x.limbs@[k]
                } else {
                    y.limbs@[k]
                }),
        decreases n - i,
    {
        let sum = maybe_x.limbs[i] + maybe_y.limbs[i];
        limbs.push(sum);
        i += 1;
    }
    proof {
        if b {
            assert(limbs@ =~= x.limbs@);
        } else {
            assert(limbs@ =~= y.limbs@);
        }
    }
    BigUintTarget { limbs }
}

/// Cyclic right rotation of a bit string: index 0 is the most significant
/// position, and position `i` of the result takes the bit that stood
/// `amt` places earlier, wrapping around.
pub open spec fn rotate_right_spec(s: Seq<bool>, amt: int) -> Seq<bool>
    recommends
        0 <= amt <= s.len(),
{
    Seq::new(s.len(), |i: int| s[(s.len() - amt + i) % (s.len() as int)])
}

/// Logical right shift of a bit string: the `amt` most significant
/// positions become zero, every other bit moves `amt` places down.
pub open spec fn shr_spec(s: Seq<bool>, amt: int) -> Seq<bool> {
    Seq::new(s.len(), |i: int|
        if i < amt {
            false
        } else {
            s[i - amt]
        })
}

/// Cyclic right rotation by `bits` positions.
pub fn _right_rotate(n: &Vec<bool>, bits: usize) -> (r: Vec<bool>)
    requires
        bits <= n@.len(),
    ensures
        r@ == rotate_right_spec(n@, bits as int),
{
    let s = n.len();
    let mut res: Vec<bool> = Vec::new();
    let mut i: usize = 0;
    while i < s
        invariant
            s == n@.len(),
            bits <= s,
            i <= s,
            res@.len() == i,
            forall|k: int| 0 <= k < i ==> res@[k] == n@[(s - bits + k) % (s as int)],
        decreases s - i,
    {
        let idx = if i < bits {
            s - bits + i
        } else {
            i - bits
        };
        proof {
            if i < bits {
                lemma_small_mod((s - bits + i) as nat, s as nat);
            } else {
                lemma_mod_multiples_vanish(1, i - bits, s as int);
                lemma_small_mod((i - bits) as nat, s as nat);
            }
        }
        res.push(n[idx]);
        i += 1;
    }
    assert(res@ =~= rotate_right_spec(n@, bits as int));
    res
}

/// Logical right shift by `bits` positions, filling with constant zero.
pub fn _shr(n: &Vec<bool>, bits: usize) -> (r: Vec<bool>)
    ensures
        r@ == shr_spec(n@, bits as int),
{
    let s = n.len();
    let mut res: Vec<bool> = Vec::new();
    let mut i: usize = 0;
    while i < s
        invariant
            s == n@.len(),
            i <= s,
            res@.len() == i,
            forall|k: int|
                0 <= k < i ==> res@[k] == (if k < bits {
                    false
                } else {
                    n@[k - bits]
                }),
        decreases s - i,
    {
        if i < bits {
            res.push(false);
        } else {
            res.push(n[i - bits]);
        }
        i += 1;
    }
    assert(res@ =~= shr_spec(n@, bits as int));
    res
}

/// Expands a known 32-bit constant into 32 bits, most significant first,
/// each pinned to a constant rather than a free witness.
pub fn uint32_to_bits(value: u32) -> (r: Vec<bool>)
    ensures
        r@ == u32_be_bits(value),
{
    proof {
        assert(forall|s: u32|
            s < 32 ==> (((value & (1u32 << s)) != 0) == (((value >> s) & 1) == 1)))
            by (bit_vector);
    }
    let mut bits: Vec<bool> = Vec::new();
    let mut i: usize = 0;
    while i < 32
        invariant
            i <= 32,
            bits@.len() == i,
            forall|k: int| 0 <= k < i ==> bits@[k] == u32_bit(value, (31 - k) as u32),
            forall|s: u32|
                s < 32 ==> (((value & (1u32 << s)) != 0) == (((value >> s) & 1) == 1)),
        decreases 32 - i,
    {
        bits.push(value & (1u32 << ((31 - i) as u32)) != 0);
        i += 1;
    }
    assert(bits@ =~= u32_be_bits(value));
    bits
}

/// Reverses the byte order of a bit string: 8-bit groups change places,
/// the bits inside each group keep their order.
fn reverse_endianness(bits: &Vec<bool>) -> (r: Vec<bool>)
    requires
        bits@.len() % 8 == 0,
    ensures
        r@ == rev8(bits@),
{
    let len = bits.len();
    let chunks = len / 8;
    proof {
        lemma_fundamental_div_mod(len as int, 8);
    }
    let mut res: Vec<bool> = Vec::new();
    let mut i: usize = 0;
    while i < chunks
        invariant
            len == bits@.len(),
            len == 8 * chunks,
            i <= chunks,
            res@.len() == 8 * i,
            forall|t: int| 0 <= t < 8 * i ==> res@[t] == bits@[len - 8 - 8 * (t / 8) + t % 8],
        decreases chunks - i,
    {
        let base = (chunks - 1 - i) * 8;
        let mut k: usize = 0;
        while k < 8
            invariant
                len == bits@.len(),
                len == 8 * chunks,
                i < chunks,
                base == (chunks - 1 - i) * 8,
                k <= 8,
                res@.len() == 8 * i + k,
                forall|t: int| 0 <= t < 8 * i + k ==> res@[t] == bits@[len - 8 - 8 * (t / 8) + t % 8],
            decreases 8 - k,
        {
            res.push(bits[base + k]);
            proof {
                let t = 8 * i + k;
                assert(t / 8 == i && t % 8 == k && len - 8 - 8 * (i as int) + k == base + k)
                    by (nonlinear_arith)
                    requires
                        t == 8 * i + k,
                        0 <= k < 8,
                        0 <= i,
                        len == 8 * chunks,
                        i < chunks,
                        base == (chunks - 1 - i) * 8,
                ;
            }
            k += 1;
        }
        i += 1;
    }
    assert(res@ =~= rev8(bits@));
    res
}

/// The 256-bit protocol (SSZ) encoding of a big integer that fills
/// `32 * limbs.len()` valid bits: its big-endian bits with the byte order
/// reversed, zero-padded on the right up to the fixed leaf slot.
pub open spec fn ssz_num_bits(limbs: Seq<u32>) -> Seq<bool>
    recommends
        32 * limbs.len() <= 256,
{
    rev8(limbs_to_bits(limbs)) + Seq::new((256 - 32 * limbs.len()) as nat, |_i: int| false)
}

/// Encodes a big integer into its 256-bit protocol slot. The number of
/// valid bits must be a multiple of 32 that matches the limb count, and may
/// not exceed the slot; anything else was a shape fault in the circuit.
pub fn ssz_num_to_bits(num: &BigUintTarget, bit_len: usize) -> (r: Vec<bool>)
    requires
        bit_len <= crate::ETH_SHA256_BIT_SIZE,
        32 * num.limbs@.len() == bit_len,
    ensures
        r@.len() == 256,
        r@ == ssz_num_bits(num.limbs@),
{
    let be = biguint_to_bits_target(num);
    proof {
        let l = num.limbs@.len() as int;
        lemma_mod_multiples_basic(4 * l, 8);
        assert(32 * l == (4 * l) * 8) by (nonlinear_arith);
    }
    let mut bits = reverse_endianness(&be);
    let mut i: usize = bit_len;
    while i < 256
        invariant
            i <= 256,
            bit_len <= i,
            bits@.len() == i,
            bits@.subrange(0, bit_len as int) == rev8(limbs_to_bits(num.limbs@)),
            forall|k: int| bit_len <= k < i ==> !bits@[k],
        decreases 256 - i,
    {
        bits.push(false);
        assert(bits@.subrange(0, bit_len as int) =~= bits@.drop_last().subrange(0, bit_len as int));
        i += 1;
    }
    assert(bits@ =~= ssz_num_bits(num.limbs@));
    bits
}

/// Decodes a 256-bit protocol slot (or any bit string whose length is a
/// multiple of 32) back into a big integer: the byte order is restored and
/// the bits regrouped into limbs.
pub fn ssz_num_from_bits(bits: &Vec<bool>) -> (r: BigUintTarget)
    requires
        bits@.len() % 32 == 0,
    ensures
        r.limbs@ == bits_to_limbs(rev8(bits@)),
{
    proof {
        let n = bits@.len() as int;
        lemma_fundamental_div_mod(n, 32);
        lemma_mod_multiples_basic(4 * (n / 32), 8);
        assert(32 * (n / 32) == (4 * (n / 32)) * 8) by (nonlinear_arith);
    }
    bits_to_biguint_target(reverse_endianness(bits))
}

/// Rotating by zero changes nothing.
pub proof fn lemma_rotate_right_zero(s: Seq<bool>)
    ensures
        rotate_right_spec(s, 0) == s,
{
    let n = s.len() as int;
    if n > 0 {
        assert forall|i: int| 0 <= i < n implies rotate_right_spec(s, 0)[i] == s[i] by {
            lemma_mod_multiples_vanish(1, i, n);
            lemma_small_mod(i as nat, n as nat);
        }
    }
    assert(rotate_right_spec(s, 0) =~= s);
}

/// Rotating by the full length changes nothing.
pub proof fn lemma_rotate_right_full(s: Seq<bool>)
    ensures
        rotate_right_spec(s, s.len() as int) == s,
{
    let n = s.len() as int;
    if n > 0 {
        assert forall|i: int| 0 <= i < n implies rotate_right_spec(s, n)[i] == s[i] by {
            lemma_small_mod(i as nat, n as nat);
        }
    }
    assert(rotate_right_spec(s, n) =~= s);
}

/// Rotating by `r` and then by the remaining `len - r` restores the input.
pub proof fn lemma_rotate_right_undo(s: Seq<bool>, r: int)
    requires
        0 <= r <= s.len(),
    ensures
        rotate_right_spec(rotate_right_spec(s, r), s.len() - r) == s,
{
    let n = s.len() as int;
    let rot = rotate_right_spec(s, r);
    if n > 0 {
        assert forall|i: int| 0 <= i < n implies rotate_right_spec(rot, n - r)[i] == s[i] by {
            let j = (n - (n - r) + i) % n;
            lemma_mod_division_less_than_divisor(r + i, n);
            assert(rot[j] == s[(n - r + j) % n]);
            lemma_add_mod_noop_right(n - r, r + i, n);
            lemma_mod_multiples_vanish(1, i, n);
            lemma_small_mod(i as nat, n as nat);
        }
    }
    assert(rotate_right_spec(rot, n - r) =~= s);
}

/// Shifting by zero changes nothing.
pub proof fn lemma_shr_zero(s: Seq<bool>)
    ensures
        shr_spec(s, 0) == s,
{
    assert(shr_spec(s, 0) =~= s);
}

/// Shifting by the length or more leaves only zeros.
pub proof fn lemma_shr_saturates(s: Seq<bool>, amt: int)
    requires
        amt >= s.len(),
    ensures
        forall|i: int| 0 <= i < s.len() ==> !shr_spec(s, amt)[i],
{
}

/// Byte-order reversal distributes over concatenation of whole-byte strings,
/// swapping the two parts.
proof fn lemma_rev8_concat(a: Seq<bool>, z: Seq<bool>)
    requires
        a.len() % 8 == 0,
        z.len() % 8 == 0,
    ensures
        rev8(a + z) == rev8(z) + rev8(a),
{
    let la = a.len() as int;
    let lz = z.len() as int;
    let n = la + lz;
    assert forall|i: int| 0 <= i < n implies rev8(a + z)[i] == (rev8(z) + rev8(a))[i] by {
        let i2 = n - 8 - 8 * (i / 8) + i % 8;
        if i < lz {
            assert(la <= i2 < n && i2 - la == lz - 8 - 8 * (i / 8) + i % 8) by (nonlinear_arith)
                requires
                    i2 == n - 8 - 8 * (i / 8) + i % 8,
                    n == la + lz,
                    0 <= i < lz,
                    la % 8 == 0,
                    lz % 8 == 0,
            ;
            assert((a + z)[i2] == z[i2 - la]);
        } else {
            assert(0 <= i2 < la && i2 == la - 8 - 8 * ((i - lz) / 8) + (i - lz) % 8)
                by (nonlinear_arith)
                requires
                    i2 == n - 8 - 8 * (i / 8) + i % 8,
                    n == la + lz,
                    lz <= i < n,
                    la % 8 == 0,
                    lz % 8 == 0,
            ;
            assert((a + z)[i2] == a[i2]);
            assert((rev8(z) + rev8(a))[i] == rev8(a)[i - lz]);
        }
    }
    assert(rev8(a + z) =~= rev8(z) + rev8(a));
}

/// Protocol round trip: regrouping the byte-restored bits of a protocol
/// slot that encodes a big integer restores that integer's limbs, extended
/// with zero limbs up to the eight-limb slot. In particular the first
/// `limbs.len()` limbs, and with them the encoded value, are unchanged.
pub proof fn lemma_ssz_roundtrip(limbs: Seq<u32>)
    requires
        32 * limbs.len() <= 256,
    ensures
        bits_to_limbs(rev8(ssz_num_bits(limbs))) == limbs + Seq::new((8 - limbs.len()) as nat,
            |_i: int| 0u32),
{
    let l = limbs.len() as int;
    let bits = limbs_to_bits(limbs);
    let p = 256 - 32 * l;
    let pad = Seq::new(p as nat, |_i: int| false);
    assert(bits.len() == 32 * l);
    assert(32 * l % 8 == 0 && p % 8 == 0 && p % 32 == 0) by (nonlinear_arith)
        requires
            p == 256 - 32 * l,
            0 <= l <= 8,
    ;
    lemma_rev8_concat(rev8(bits), pad);
    lemma_rev8_involution(bits);
    assert(ssz_num_bits(limbs) == rev8(bits) + pad);
    assert(rev8(ssz_num_bits(limbs)) == rev8(pad) + bits);
    let whole = rev8(pad) + bits;
    assert(forall|i: int| 0 <= i < p ==> !(rev8(pad)[i]));
    let out = bits_to_limbs(whole);
    assert(out.len() == 8);
    let expect = limbs + Seq::new((8 - limbs.len()) as nat, |_i: int| 0u32);
    assert forall|j: int| 0 <= j < 8 implies out[j] == expect[j] by {
        let lo = 256 - 32 * j - 32;
        let group = whole.subrange(lo, lo + 32);
        if j < l {
            let blo = 32 * l - 32 * j - 32;
            assert(group =~= bits.subrange(blo, blo + 32));
            lemma_limbs_bits_roundtrip(limbs);
            assert(bits_to_limbs(bits)[j] == limbs[j]);
        } else {
            assert(lo + 32 <= p);
            assert(forall|t: int| 0 <= t < 32 ==> !group[t]);
            lemma_be_val_zero(group);
        }
    }
    assert(out =~= expect);
}

} // verus!
