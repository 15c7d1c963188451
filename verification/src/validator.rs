//! The validator record as the circuit sees it: eight fixed-width bit
//! arrays, their transport encoding as sequences of 0/1 integers, and the
//! record's hash-tree-root, the 8-leaf Merkle root over SHA-256 in which the
//! oversized public key is first reduced by its own hash.

use vstd::prelude::*;
use crate::sha256::{sha256_spec, bits_to_bytes_spec, bytes_to_bits_spec, pad64,
    hash_bit_array_spec, bits_to_bytes, bytes_to_bits, sha256_digest};
use crate::utils::lemma_be_val_zero;

verus! {

/// One validator record: a 384-bit public key and seven 256-bit protocol
/// field slots, each held as a bit array with the most significant bit
/// first.
pub struct Validator {
    pub pubkey: Vec<bool>,
    pub withdrawal_credentials: Vec<bool>,
    pub effective_balance: Vec<bool>,
    pub slashed: Vec<bool>,
    pub activation_eligibility_epoch: Vec<bool>,
    pub activation_epoch: Vec<bool>,
    pub exit_epoch: Vec<bool>,
    pub withdrawable_epoch: Vec<bool>,
}

/// The digest bits of a message given as bits: what the in-circuit hasher
/// computes for one fixed-width message.
pub open spec fn hasher_digest_bits(msg: Seq<bool>) -> Seq<bool>
    recommends
        msg.len() % 8 == 0,
{
    bytes_to_bits_spec(sha256_spec(bits_to_bytes_spec(msg)))
}

/// One interior Merkle node: the digest of the two concatenated children.
pub open spec fn node_hash_spec(l: Seq<bool>, r: Seq<bool>) -> Seq<bool>
    recommends
        l.len() == 256,
        r.len() == 256,
{
    hasher_digest_bits(l + r)
}

/// The Merkle root of eight 256-bit leaves: pairs are hashed into four
/// nodes, those into two, and the last pair into the root.
pub open spec fn merkle_root8_spec(leaves: Seq<Seq<bool>>) -> Seq<bool>
    recommends
        leaves.len() == 8,
{
    node_hash_spec(
        node_hash_spec(node_hash_spec(leaves[0], leaves[1]), node_hash_spec(leaves[2], leaves[3])),
        node_hash_spec(node_hash_spec(leaves[4], leaves[5]), node_hash_spec(leaves[6], leaves[7])),
    )
}

/// The zero-bit padding that extends a 384-bit key to the hasher's 512-bit
/// message: the protocol pads a 48-byte key to a 64-byte block with zero
/// bytes, not with general hash padding.
pub open spec fn pubkey_message_bits(pubkey: Seq<bool>) -> Seq<bool>
    recommends
        pubkey.len() == 384,
{
    pubkey + Seq::new(128, |_i: int| false)
}

/// The hash-tree-root of a validator record: leaf 0 is the digest of the
/// zero-padded public key, leaves 1 to 7 are the remaining fields in
/// protocol order.
pub open spec fn validator_hash_tree_root_spec(v: Validator) -> Seq<bool>
    recommends
        v.wf(),
{
    merkle_root8_spec(
        seq![
            hasher_digest_bits(pubkey_message_bits(v.pubkey@)),
            v.withdrawal_credentials@,
            v.effective_balance@,
            v.slashed@,
            v.activation_eligibility_epoch@,
            v.activation_epoch@,
            v.exit_epoch@,
            v.withdrawable_epoch@,
        ],
    )
}

impl Validator {
    /// Field widths of a well-formed record: the public key fills 384 bits,
    /// every other field one 256-bit slot.
    pub open spec fn wf(&self) -> bool {
        self.pubkey@.len() == 384 && self.withdrawal_credentials@.len() == 256
            && self.effective_balance@.len() == 256 && self.slashed@.len() == 256
            && self.activation_eligibility_epoch@.len() == 256 && self.activation_epoch@.len()
            == 256 && self.exit_epoch@.len() == 256 && self.withdrawable_epoch@.len() == 256
    }

    /// Computes the record's hash-tree-root, a 256-bit array.
    pub fn hash_tree_root(&self) -> (r: Vec<bool>)
        requires
            self.wf(),
        ensures
            r@.len() == 256,
            r@ == validator_hash_tree_root_spec(*self),
    {
        let mut msg: Vec<bool> = Vec::new();
        let mut i: usize = 0;
        while i < 384
            invariant
                self.pubkey@.len() == 384,
                i <= 384,
                msg@.len() == i,
                forall|k: int| 0 <= k < i ==> msg@[k] == self.pubkey@[k],
            decreases 384 - i,
        {
            msg.push(self.pubkey[i]);
            i += 1;
        }
        let mut i: usize = 0;
        while i < 128
            invariant
                i <= 128,
                msg@.len() == 384 + i,
                msg@.subrange(0, 384) == self.pubkey@,
                forall|k: int| 384 <= k < msg@.len() ==> !msg@[k],
            decreases 128 - i,
        {
            msg.push(false);
            assert(msg@.subrange(0, 384) =~= msg@.drop_last().subrange(0, 384));
            i += 1;
        }
        assert(msg@ =~= pubkey_message_bits(self.pubkey@));
        let msg_bytes = bits_to_bytes(&msg);
        let digest = sha256_digest(&msg_bytes);
        let leaf0 = bytes_to_bits(&digest);
        let n01 = node_hash(&leaf0, &self.withdrawal_credentials);
        let n23 = node_hash(&self.effective_balance, &self.slashed);
        let n45 = node_hash(&self.activation_eligibility_epoch, &self.activation_epoch);
        let n67 = node_hash(&self.exit_epoch, &self.withdrawable_epoch);
        let n0123 = node_hash(&n01, &n23);
        let n4567 = node_hash(&n45, &n67);
        let root = node_hash(&n0123, &n4567);
        root
    }
}

/// One interior Merkle node of two 256-bit children.
fn node_hash(l: &Vec<bool>, r: &Vec<bool>) -> (out: Vec<bool>)
    requires
        l@.len() == 256,
        r@.len() == 256,
    ensures
        out@.len() == 256,
        out@ == node_hash_spec(l@, r@),
{
    let mut cat: Vec<bool> = Vec::new();
    let mut i: usize = 0;
    while i < 256
        invariant
            l@.len() == 256,
            i <= 256,
            cat@.len() == i,
            forall|k: int| 0 <= k < i ==> cat@[k] == l@[k],
        decreases 256 - i,
    {
        cat.push(l[i]);
        i += 1;
    }
    let mut i: usize = 0;
    while i < 256
        invariant
            r@.len() == 256,
            i <= 256,
            cat@.len() == 256 + i,
            cat@.subrange(0, 256) == l@,
            forall|k: int| 0 <= k < i ==> cat@[256 + k] == r@[k],
        decreases 256 - i,
    {
        cat.push(r[i]);
        assert(cat@.subrange(0, 256) =~= cat@.drop_last().subrange(0, 256));
        i += 1;
    }
    assert(cat@ =~= l@ + r@);
    let bytes = bits_to_bytes(&cat);
    let digest = sha256_digest(&bytes);
    bytes_to_bits(&digest)
}

/// The in-circuit hash of the zero-padded public key agrees with the
/// off-circuit hasher: padding the 384 key bits with 128 zero bits and
/// hashing the packed message is the same as packing the 48 key bytes and
/// zero-filling the buffer to 64 bytes before hashing.
pub proof fn lemma_padded_pubkey_hash(pubkey: Seq<bool>)
    requires
        pubkey.len() == 384,
    ensures
        hasher_digest_bits(pubkey_message_bits(pubkey)) == hash_bit_array_spec(pubkey),
{
    let m = pubkey_message_bits(pubkey);
    assert forall|j: int| 0 <= j < 64 implies bits_to_bytes_spec(m)[j] == pad64(
        bits_to_bytes_spec(pubkey))[j] by {
        if j < 48 {
            assert(m.subrange(8 * j, 8 * j + 8) =~= pubkey.subrange(8 * j, 8 * j + 8));
        } else {
            let group = m.subrange(8 * j, 8 * j + 8);
            assert(forall|t: int| 0 <= t < 8 ==> !group[t]);
            lemma_be_val_zero(group);
            assert(bits_to_bytes_spec(m)[j] == 0u8);
        }
    }
    assert(bits_to_bytes_spec(m) =~= pad64(bits_to_bytes_spec(pubkey)));
}

/// The transport encoding of one bit field: one integer per bit, 1 for a
/// set bit and 0 for a clear one.
pub fn serialize(x: &Vec<bool>) -> (r: Vec<i32>)
    ensures
        r@.len() == x@.len(),
        forall|i: int|
            0 <= i < x@.len() ==> r@[i] == (if x@[i] {
                1i32
            } else {
                0i32
            }),
{
    let n = x.len();
    let mut out: Vec<i32> = Vec::new();
    let mut i: usize = 0;
    while i < n
        invariant
            n == x@.len(),
            i <= n,
            out@.len() == i,
            forall|k: int|
                0 <= k < i ==> out@[k] == (if x@[k] {
                    1i32
                } else {
                    0i32
                }),
        decreases n - i,
    {
        out.push(
            if x[i] {
                1
            } else {
                0
            },
        );
        i += 1;
    }
    out
}

/// Decodes a transport bit field. Succeeds exactly when every element is 0
/// or 1; any other value rejects the whole sequence.
pub fn deserialize(v: &Vec<i32>) -> (r: Option<Vec<bool>>)
    ensures
        r.is_some() <==> (forall|i: int| 0 <= i < v@.len() ==> (v@[i] == 0i32 || v@[i] == 1i32)),
        r.is_some() ==> r.unwrap()@.len() == v@.len(),
        r.is_some() ==> forall|i: int| 0 <= i < v@.len() ==> r.unwrap()@[i] == (v@[i] == 1i32),
{
    let n = v.len();
    let mut out: Vec<bool> = Vec::new();
    let mut i: usize = 0;
    while i < n
        invariant
            n == v@.len(),
            i <= n,
            out@.len() == i,
            forall|k: int| 0 <= k < i ==> (v@[k] == 0i32 || v@[k] == 1i32),
            forall|k: int| 0 <= k < i ==> out@[k] == (v@[k] == 1i32),
        decreases n - i,
    {
        let e = v[i];
        if e == 0 {
            out.push(false);
        } else if e == 1 {
            out.push(true);
        } else {
            return None;
        }
        i += 1;
    }
    Some(out)
}

} // verus!
