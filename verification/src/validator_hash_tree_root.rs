//! The circuit-side wire interface of one validator record: a deterministic
//! allocation of wire identifiers for the eight field bit arrays and the
//! 256-bit root, and the byte codec that persists those identifiers so a
//! built sub-circuit's interface can be reloaded without re-deriving
//! constraints.

use vstd::prelude::*;

verus! {

/// Allocates fresh wire identifiers. Allocation is a pure function of the
/// counter, so building the same component sequence always yields the same
/// identifiers — the invariant that makes persisted identifiers reloadable.
pub struct WireAllocator {
    pub next: u32,
}

/// Allocates `width` fresh consecutive wire identifiers.
fn create_target_array(builder: &mut WireAllocator, width: usize) -> (r: Vec<u32>)
    requires
        old(builder).next + width <= u32::MAX,
    ensures
        r@.len() == width,
        forall|k: int| 0 <= k < width ==> r@[k] == old(builder).next + k,
        final(builder).next == old(builder).next + width,
{
    let mut r: Vec<u32> = Vec::new();
    let mut i: usize = 0;
    while i < width
        invariant
            old(builder).next + width <= u32::MAX,
            i <= width,
            builder.next == old(builder).next + i,
            r@.len() == i,
            forall|k: int| 0 <= k < i ==> r@[k] == old(builder).next + k,
        decreases width - i,
    {
        r.push(builder.next);
        builder.next = builder.next + 1;
        i += 1;
    }
    r
}

/// Allocates one 256-bit array of boolean-constrained wires.
pub fn create_bool_target_array(builder: &mut WireAllocator) -> (r: Vec<u32>)
    requires
        old(builder).next + 256 <= u32::MAX,
    ensures
        r@.len() == 256,
        forall|k: int| 0 <= k < 256 ==> r@[k] == old(builder).next + k,
        final(builder).next == old(builder).next + 256,
{
    create_target_array(builder, 256)
}

/// The wire bundle of one validator record: the identifiers of the eight
/// field bit arrays, pubkey 384 wires and every other field 256.
pub struct ValidatorShaTargets {
    pub pubkey: Vec<u32>,
    pub withdrawal_credentials: Vec<u32>,
    pub effective_balance: Vec<u32>,
    pub slashed: Vec<u32>,
    pub activation_eligibility_epoch: Vec<u32>,
    pub activation_epoch: Vec<u32>,
    pub exit_epoch: Vec<u32>,
    pub withdrawable_epoch: Vec<u32>,
}

impl ValidatorShaTargets {
    /// Field widths of a well-formed bundle.
    pub open spec fn wf(&self) -> bool {
        self.pubkey@.len() == 384 && self.withdrawal_credentials@.len() == 256
            && self.effective_balance@.len() == 256 && self.slashed@.len() == 256
            && self.activation_eligibility_epoch@.len() == 256 && self.activation_epoch@.len()
            == 256 && self.exit_epoch@.len() == 256 && self.withdrawable_epoch@.len() == 256
    }
}

/// The wire interface of the validator hash-tree-root circuit: the input
/// bundle and the 256 root wires the circuit exposes as its public output.
pub struct ValidatorHashTreeRootTargets {
    pub validator: ValidatorShaTargets,
    pub hash_tree_root: Vec<u32>,
}

/// Builds the wire interface of one validator hash-tree-root circuit:
/// 384 pubkey wires, seven 256-bit field arrays in protocol order, and the
/// 256 root wires, all freshly and consecutively allocated. The constraint
/// side — the hasher over the zero-padded pubkey and the 8-leaf Merkle
/// gadget the leaves are wired into — is the proving backend's; the value
/// they constrain the root to is `validator_hash_tree_root_spec`.
pub fn hash_tree_root_validator_sha256(builder: &mut WireAllocator) -> (r:
    ValidatorHashTreeRootTargets)
    requires
        old(builder).next + 2432 <= u32::MAX,
    ensures
        r.validator.wf(),
        r.hash_tree_root@.len() == 256,
        forall|k: int| 0 <= k < 384 ==> r.validator.pubkey@[k] == old(builder).next + k,
        forall|k: int|
            0 <= k < 256 ==> r.validator.withdrawal_credentials@[k] == old(builder).next + 384 + k,
        forall|k: int|
            0 <= k < 256 ==> r.validator.effective_balance@[k] == old(builder).next + 640 + k,
        forall|k: int| 0 <= k < 256 ==> r.validator.slashed@[k] == old(builder).next + 896 + k,
        forall|k: int|
            0 <= k < 256 ==> r.validator.activation_eligibility_epoch@[k] == old(builder).next
                + 1152 + k,
        forall|k: int|
            0 <= k < 256 ==> r.validator.activation_epoch@[k] == old(builder).next + 1408 + k,
        forall|k: int| 0 <= k < 256 ==> r.validator.exit_epoch@[k] == old(builder).next + 1664 + k,
        forall|k: int|
            0 <= k < 256 ==> r.validator.withdrawable_epoch@[k] == old(builder).next + 1920 + k,
        forall|k: int| 0 <= k < 256 ==> r.hash_tree_root@[k] == old(builder).next + 2176 + k,
        final(builder).next == old(builder).next + 2432,
{
    let pubkey = create_target_array(builder, 384);
    let withdrawal_credentials = create_bool_target_array(builder);
    let effective_balance = create_bool_target_array(builder);
    let slashed = create_bool_target_array(builder);
    let activation_eligibility_epoch = create_bool_target_array(builder);
    let activation_epoch = create_bool_target_array(builder);
    let exit_epoch = create_bool_target_array(builder);
    let withdrawable_epoch = create_bool_target_array(builder);
    let hash_tree_root = create_bool_target_array(builder);
    ValidatorHashTreeRootTargets {
        validator: ValidatorShaTargets {
            pubkey,
            withdrawal_credentials,
            effective_balance,
            slashed,
            activation_eligibility_epoch,
            activation_epoch,
            exit_epoch,
            withdrawable_epoch,
        },
        hash_tree_root,
    }
}

/// The four little-endian bytes of one wire identifier.
pub open spec fn u32_le_bytes(x: u32) -> Seq<u8> {
    seq![
        (x & 0xff) as u8,
        ((x >> 8u32) & 0xff) as u8,
        ((x >> 16u32) & 0xff) as u8,
        ((x >> 24u32) & 0xff) as u8,
    ]
}

/// The flat bytes of a sequence of identifiers, four per identifier.
pub open spec fn ids_bytes(ids: Seq<u32>) -> Seq<u8> {
    Seq::new(4 * ids.len(), |i: int| u32_le_bytes(ids[i / 4])[i % 4])
}

/// One persisted field: a little-endian identifier count, then the
/// identifiers themselves.
pub open spec fn encode_ids(ids: Seq<u32>) -> Seq<u8> {
    u32_le_bytes(ids.len() as u32) + ids_bytes(ids)
}

/// The persisted form of a whole bundle: the eight fields in the fixed
/// order pubkey, withdrawal_credentials, effective_balance, slashed,
/// activation_eligibility_epoch, activation_epoch, exit_epoch,
/// withdrawable_epoch. The format is not self-describing; a reader must
/// match this order exactly.
pub open spec fn targets_bytes(t: ValidatorShaTargets) -> Seq<u8> {
    encode_ids(t.pubkey@) + encode_ids(t.withdrawal_credentials@) + encode_ids(
        t.effective_balance@,
    ) + encode_ids(t.slashed@) + encode_ids(t.activation_eligibility_epoch@) + encode_ids(
        t.activation_epoch@,
    ) + encode_ids(t.exit_epoch@) + encode_ids(t.withdrawable_epoch@)
}

/// A buffer that starts with a well-formed bundle encoding: it is long
/// enough, and each of the eight stored counts equals its field's fixed
/// width.
pub open spec fn valid_targets_prefix(bytes: Seq<u8>) -> bool {
    bytes.len() >= 8736 && bytes.subrange(0, 4) == u32_le_bytes(384u32) && bytes.subrange(
        1540,
        1544,
    ) == u32_le_bytes(256u32) && bytes.subrange(2568, 2572) == u32_le_bytes(256u32)
        && bytes.subrange(3596, 3600) == u32_le_bytes(256u32) && bytes.subrange(4624, 4628)
        == u32_le_bytes(256u32) && bytes.subrange(5652, 5656) == u32_le_bytes(256u32)
        && bytes.subrange(6680, 6684) == u32_le_bytes(256u32) && bytes.subrange(7708, 7712)
        == u32_le_bytes(256u32)
}

/// Appends the little-endian bytes of one identifier.
fn push_u32_le(out: &mut Vec<u8>, x: u32)
    ensures
        final(out)@ == old(out)@ + u32_le_bytes(x),
{
    out.push((x & 0xff) as u8);
    out.push(((x >> 8u32) & 0xff) as u8);
    out.push(((x >> 16u32) & 0xff) as u8);
    out.push(((x >> 24u32) & 0xff) as u8);
    assert(out@ =~= old(out)@ + u32_le_bytes(x));
}

/// Appends one persisted field: the count, then each identifier.
fn write_ids(out: &mut Vec<u8>, ids: &Vec<u32>)
    requires
        ids@.len() <= 0xffff_ffff,
    ensures
        final(out)@ == old(out)@ + encode_ids(ids@),
{
    let n = ids.len();
    push_u32_le(out, n as u32);
    let mut i: usize = 0;
    while i < n
        invariant
            n == ids@.len(),
            n <= 0xffff_ffff,
            i <= n,
            out@ == old(out)@ + u32_le_bytes(n as u32) + ids_bytes(ids@.subrange(0, i as int)),
        decreases n - i,
    {
        let ghost pre = ids@.subrange(0, i as int);
        push_u32_le(out, ids[i]);
        proof {
            let post = ids@.subrange(0, i + 1);
            assert forall|t: int| 0 <= t < 4 * (i + 1) implies ids_bytes(post)[t] == (ids_bytes(pre)
                + u32_le_bytes(ids@[i as int]))[t] by {
                let k = t / 4;
                let m = t % 4;
                assert(0 <= m < 4 && t == 4 * k + m && 0 <= k <= i && (t < 4 * i ==> k < i) && (t
                    >= 4 * i ==> k == i && m == t - 4 * i)) by (nonlinear_arith)
                    requires
                        0 <= t < 4 * (i + 1),
                        k == t / 4,
                        m == t % 4,
                        0 <= i,
                ;
                if k < i {
                    assert(post[k] == pre[k]);
                } else {
                    assert(post[k] == ids@[i as int]);
                }
            }
            assert(ids_bytes(post) =~= ids_bytes(pre) + u32_le_bytes(ids@[i as int]));
            assert(out@ =~= old(out)@ + u32_le_bytes(n as u32) + ids_bytes(post));
        }
        i += 1;
    }
    assert(ids@.subrange(0, n as int) =~= ids@);
}

impl ValidatorShaTargets {
    /// Persists the bundle's wire identifiers in the fixed field order.
    pub fn write_targets(&self) -> (r: Vec<u8>)
        requires
            self.wf(),
        ensures
            r@ == targets_bytes(*self),
            r@.len() == 8736,
    {
        let mut bytes: Vec<u8> = Vec::new();
        write_ids(&mut bytes, &self.pubkey);
        write_ids(&mut bytes, &self.withdrawal_credentials);
        write_ids(&mut bytes, &self.effective_balance);
        write_ids(&mut bytes, &self.slashed);
        write_ids(&mut bytes, &self.activation_eligibility_epoch);
        write_ids(&mut bytes, &self.activation_epoch);
        write_ids(&mut bytes, &self.exit_epoch);
        write_ids(&mut bytes, &self.withdrawable_epoch);
        assert(bytes@ =~= targets_bytes(*self));
        bytes
    }

    /// Reconstructs a bundle from its persisted identifiers. Succeeds
    /// exactly when the buffer is long enough and every stored count equals
    /// its field's fixed width; the identifiers read back are then the ones
    /// that were written.
    pub fn read_targets(data: &Vec<u8>) -> (r: Option<ValidatorShaTargets>)
        ensures
            r.is_some() <==> valid_targets_prefix(data@),
            r.is_some() ==> r.unwrap().wf(),
            r.is_some() ==> targets_bytes(r.unwrap()) == data@.subrange(0, 8736),
    {
        let pubkey = match read_ids(data, 0, 384) {
            Some(v) => v,
            None => {
                return None;
            },
        };
        let withdrawal_credentials = match read_ids(data, 1540, 256) {
            Some(v) => v,
            None => {
                return None;
            },
        };
        let effective_balance = match read_ids(data, 2568, 256) {
            Some(v) => v,
            None => {
                return None;
            },
        };
        let slashed = match read_ids(data, 3596, 256) {
            Some(v) => v,
            None => {
                return None;
            },
        };
        let activation_eligibility_epoch = match read_ids(data, 4624, 256) {
            Some(v) => v,
            None => {
                return None;
            },
        };
        let activation_epoch = match read_ids(data, 5652, 256) {
            Some(v) => v,
            None => {
                return None;
            },
        };
        let exit_epoch = match read_ids(data, 6680, 256) {
            Some(v) => v,
            None => {
                return None;
            },
        };
        let withdrawable_epoch = match read_ids(data, 7708, 256) {
            Some(v) => v,
            None => {
                return None;
            },
        };
        let result = ValidatorShaTargets {
            pubkey,
            withdrawal_credentials,
            effective_balance,
            slashed,
            activation_eligibility_epoch,
            activation_epoch,
            exit_epoch,
            withdrawable_epoch,
        };
        proof {
            assert(data@.subrange(0, 1540) + data@.subrange(1540, 2568) =~= data@.subrange(
                0,
                2568,
            ));
            assert(data@.subrange(0, 2568) + data@.subrange(2568, 3596) =~= data@.subrange(
                0,
                3596,
            ));
            assert(data@.subrange(0, 3596) + data@.subrange(3596, 4624) =~= data@.subrange(
                0,
                4624,
            ));
            assert(data@.subrange(0, 4624) + data@.subrange(4624, 5652) =~= data@.subrange(
                0,
                5652,
            ));
            assert(data@.subrange(0, 5652) + data@.subrange(5652, 6680) =~= data@.subrange(
                0,
                6680,
            ));
            assert(data@.subrange(0, 6680) + data@.subrange(6680, 7708) =~= data@.subrange(
                0,
                7708,
            ));
            assert(data@.subrange(0, 7708) + data@.subrange(7708, 8736) =~= data@.subrange(
                0,
                8736,
            ));
            assert(targets_bytes(result) == data@.subrange(0, 8736));
        }
        Some(result)
    }
}

/// Reads the four little-endian bytes at `off` as one identifier.
fn read_u32_le(data: &Vec<u8>, off: usize) -> (x: u32)
    requires
        off + 4 <= data@.len(),
    ensures
        u32_le_bytes(x) == data@.subrange(off as int, off as int + 4),
{
    proof {
        vstd::std_specs::vec::axiom_spec_len(data);
    }
    let b0 = data[off] as u32;
    let b1 = data[off + 1] as u32;
    let b2 = data[off + 2] as u32;
    let b3 = data[off + 3] as u32;
    let x = b0 | (b1 << 8u32) | (b2 << 16u32) | (b3 << 24u32);
    proof {
        assert((x & 0xff) == b0 && ((x >> 8u32) & 0xff) == b1 && ((x >> 16u32) & 0xff) == b2 && ((x
            >> 24u32) & 0xff) == b3) by (bit_vector)
            requires
                x == b0 | (b1 << 8u32) | (b2 << 16u32) | (b3 << 24u32),
                b0 < 256,
                b1 < 256,
                b2 < 256,
                b3 < 256,
        ;
        assert(u32_le_bytes(x) =~= data@.subrange(off as int, off as int + 4));
    }
    x
}

/// Two identifiers with the same little-endian bytes are equal.
proof fn lemma_u32_le_bytes_injective(x: u32, y: u32)
    requires
        u32_le_bytes(x) == u32_le_bytes(y),
    ensures
        x == y,
{
    assert(x & 0xff < 256 && (x >> 8u32) & 0xff < 256 && (x >> 16u32) & 0xff < 256 && (x >> 24u32)
        & 0xff < 256) by (bit_vector);
    assert(y & 0xff < 256 && (y >> 8u32) & 0xff < 256 && (y >> 16u32) & 0xff < 256 && (y >> 24u32)
        & 0xff < 256) by (bit_vector);
    assert(u32_le_bytes(x)[0] == u32_le_bytes(y)[0]);
    assert(u32_le_bytes(x)[1] == u32_le_bytes(y)[1]);
    assert(u32_le_bytes(x)[2] == u32_le_bytes(y)[2]);
    assert(u32_le_bytes(x)[3] == u32_le_bytes(y)[3]);
    assert(x == y) by (bit_vector)
        requires
            x & 0xff == y & 0xff,
            (x >> 8u32) & 0xff == (y >> 8u32) & 0xff,
            (x >> 16u32) & 0xff == (y >> 16u32) & 0xff,
            (x >> 24u32) & 0xff == (y >> 24u32) & 0xff,
    ;
}

/// Reads one persisted field at `off`: the stored count must equal the
/// field's fixed width and the identifiers must lie within the buffer.
fn read_ids(data: &Vec<u8>, off: usize, expected: usize) -> (r: Option<Vec<u32>>)
    requires
        off <= data@.len(),
        expected <= 65536,
    ensures
        r.is_some() <==> (off + 4 + 4 * expected <= data@.len() && data@.subrange(
            off as int,
            off as int + 4,
        ) == u32_le_bytes(expected as u32)),
        r.is_some() ==> r.unwrap()@.len() == expected,
        r.is_some() ==> encode_ids(r.unwrap()@) == data@.subrange(
            off as int,
            off as int + 4 + 4 * expected,
        ),
{
    if data.len() - off < 4 {
        return None;
    }
    let len_word = read_u32_le(data, off);
    if len_word != expected as u32 {
        proof {
            if data@.subrange(off as int, off as int + 4) == u32_le_bytes(expected as u32) {
                lemma_u32_le_bytes_injective(len_word, expected as u32);
            }
        }
        return None;
    }
    if (data.len() - off) - 4 < 4 * expected {
        return None;
    }
    let n = data.len();
    let mut ids: Vec<u32> = Vec::new();
    let mut i: usize = 0;
    while i < expected
        invariant
            n == data@.len(),
            off + 4 + 4 * expected <= n,
            expected <= 65536,
            i <= expected,
            ids@.len() == i,
            forall|k: int|
                0 <= k < i ==> u32_le_bytes(ids@[k]) == data@.subrange(
                    off + 4 + 4 * k,
                    off + 4 + 4 * k + 4,
                ),
        decreases expected - i,
    {
        let id = read_u32_le(data, off + 4 + 4 * i);
        ids.push(id);
        i += 1;
    }
    proof {
        assert forall|t: int| 0 <= t < 4 + 4 * expected implies encode_ids(ids@)[t] == data@[off
            + t] by {
            if t < 4 {
                assert(encode_ids(ids@)[t] == u32_le_bytes(len_word)[t]);
                assert(data@.subrange(off as int, off as int + 4)[t] == data@[off + t]);
            } else {
                let k = (t - 4) / 4;
                let m = (t - 4) % 4;
                assert(0 <= k < expected && 0 <= m < 4 && t == 4 + 4 * k + m) by (nonlinear_arith)
                    requires
                        4 <= t < 4 + 4 * expected,
                        k == (t - 4) / 4,
                        m == (t - 4) % 4,
                ;
                assert(encode_ids(ids@)[t] == ids_bytes(ids@)[t - 4]);
                assert(ids_bytes(ids@)[t - 4] == u32_le_bytes(ids@[k])[m]);
                assert(u32_le_bytes(ids@[k])[m] == data@.subrange(
                    off + 4 + 4 * k,
                    off + 4 + 4 * k + 4,
                )[m]);
            }
        }
        assert(encode_ids(ids@) =~= data@.subrange(off as int, off as int + 4 + 4 * expected));
    }
    Some(ids)
}

/// What `write_targets` writes is a well-formed encoding: its length and
/// stored counts are the fixed ones, so reading it back succeeds.
pub proof fn lemma_targets_bytes_valid(t: ValidatorShaTargets)
    requires
        t.wf(),
    ensures
        targets_bytes(t).len() == 8736,
        valid_targets_prefix(targets_bytes(t)),
{
    let b = targets_bytes(t);
    assert(b.subrange(0, 4) =~= u32_le_bytes(384u32));
    assert(b.subrange(1540, 1544) =~= u32_le_bytes(256u32));
    assert(b.subrange(2568, 2572) =~= u32_le_bytes(256u32));
    assert(b.subrange(3596, 3600) =~= u32_le_bytes(256u32));
    assert(b.subrange(4624, 4628) =~= u32_le_bytes(256u32));
    assert(b.subrange(5652, 5656) =~= u32_le_bytes(256u32));
    assert(b.subrange(6680, 6684) =~= u32_le_bytes(256u32));
    assert(b.subrange(7708, 7712) =~= u32_le_bytes(256u32));
}

/// Two identifier sequences of equal length with the same persisted field
/// bytes are equal.
proof fn lemma_encode_ids_injective(a: Seq<u32>, b: Seq<u32>)
    requires
        a.len() == b.len(),
        encode_ids(a) == encode_ids(b),
    ensures
        a == b,
{
    assert forall|k: int| 0 <= k < a.len() implies a[k] == b[k] by {
        assert forall|m: int| 0 <= m < 4 implies u32_le_bytes(a[k])[m] == u32_le_bytes(b[k])[m] by {
            let t = 4 * k + m;
            assert(t / 4 == k && t % 4 == m) by (nonlinear_arith)
                requires
                    t == 4 * k + m,
                    0 <= m < 4,
                    0 <= k,
            ;
            assert(ids_bytes(a)[t] == u32_le_bytes(a[k])[m]);
            assert(ids_bytes(b)[t] == u32_le_bytes(b[k])[m]);
            assert(encode_ids(a)[4 + t] == ids_bytes(a)[t]);
            assert(encode_ids(b)[4 + t] == ids_bytes(b)[t]);
        }
        assert(u32_le_bytes(a[k]) =~= u32_le_bytes(b[k]));
        lemma_u32_le_bytes_injective(a[k], b[k]);
    }
    assert(a =~= b);
}

/// The persisted form determines the bundle: equal bytes of two well-formed
/// bundles mean equal identifiers field for field. Together with
/// `lemma_targets_bytes_valid` and the contracts of `write_targets` and
/// `read_targets`, this is the codec's symmetry: reading back a written
/// bundle restores exactly the identifiers that were written.
pub proof fn lemma_targets_bytes_injective(t1: ValidatorShaTargets, t2: ValidatorShaTargets)
    requires
        t1.wf(),
        t2.wf(),
        targets_bytes(t1) == targets_bytes(t2),
    ensures
        t1.pubkey@ == t2.pubkey@,
        t1.withdrawal_credentials@ == t2.withdrawal_credentials@,
        t1.effective_balance@ == t2.effective_balance@,
        t1.slashed@ == t2.slashed@,
        t1.activation_eligibility_epoch@ == t2.activation_eligibility_epoch@,
        t1.activation_epoch@ == t2.activation_epoch@,
        t1.exit_epoch@ == t2.exit_epoch@,
        t1.withdrawable_epoch@ == t2.withdrawable_epoch@,
{
    let b1 = targets_bytes(t1);
    let b2 = targets_bytes(t2);
    assert(b1.subrange(0, 1540) =~= encode_ids(t1.pubkey@));
    assert(b2.subrange(0, 1540) =~= encode_ids(t2.pubkey@));
    lemma_encode_ids_injective(t1.pubkey@, t2.pubkey@);
    assert(b1.subrange(1540, 2568) =~= encode_ids(t1.withdrawal_credentials@));
    assert(b2.subrange(1540, 2568) =~= encode_ids(t2.withdrawal_credentials@));
    lemma_encode_ids_injective(t1.withdrawal_credentials@, t2.withdrawal_credentials@);
    assert(b1.subrange(2568, 3596) =~= encode_ids(t1.effective_balance@));
    assert(b2.subrange(2568, 3596) =~= encode_ids(t2.effective_balance@));
    lemma_encode_ids_injective(t1.effective_balance@, t2.effective_balance@);
    assert(b1.subrange(3596, 4624) =~= encode_ids(t1.slashed@));
    assert(b2.subrange(3596, 4624) =~= encode_ids(t2.slashed@));
    lemma_encode_ids_injective(t1.slashed@, t2.slashed@);
    assert(b1.subrange(4624, 5652) =~= encode_ids(t1.activation_eligibility_epoch@));
    assert(b2.subrange(4624, 5652) =~= encode_ids(t2.activation_eligibility_epoch@));
    lemma_encode_ids_injective(t1.activation_eligibility_epoch@, t2.activation_eligibility_epoch@);
    assert(b1.subrange(5652, 6680) =~= encode_ids(t1.activation_epoch@));
    assert(b2.subrange(5652, 6680) =~= encode_ids(t2.activation_epoch@));
    lemma_encode_ids_injective(t1.activation_epoch@, t2.activation_epoch@);
    assert(b1.subrange(6680, 7708) =~= encode_ids(t1.exit_epoch@));
    assert(b2.subrange(6680, 7708) =~= encode_ids(t2.exit_epoch@));
    lemma_encode_ids_injective(t1.exit_epoch@, t2.exit_epoch@);
    assert(b1.subrange(7708, 8736) =~= encode_ids(t1.withdrawable_epoch@));
    assert(b2.subrange(7708, 8736) =~= encode_ids(t2.withdrawable_epoch@));
    lemma_encode_ids_injective(t1.withdrawable_epoch@, t2.withdrawable_epoch@);
}

} // verus!
