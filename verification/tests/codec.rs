//! Tests of the transport encoding of bit fields and of the wire-identifier
//! codec.

use circuits::validator::{serialize, deserialize};
use circuits::validator_hash_tree_root::{WireAllocator, ValidatorShaTargets,
    hash_tree_root_validator_sha256, create_bool_target_array};

#[test]
fn test_serialize() {
    assert_eq!(serialize(&vec![true, false, true]), vec![1, 0, 1]);
    assert_eq!(serialize(&vec![false, false, true]), vec![0, 0, 1]);
    assert_eq!(serialize(&vec![true, true, false]), vec![1, 1, 0]);
    assert_eq!(serialize(&vec![false, true, false]), vec![0, 1, 0]);
    assert_eq!(serialize(&vec![true, false, false]), vec![1, 0, 0]);
    assert_eq!(serialize(&vec![false, true, true]), vec![0, 1, 1]);
    assert_eq!(serialize(&vec![true, true, true]), vec![1, 1, 1]);
}

#[test]
fn test_deserialize() {
    assert_eq!(deserialize(&vec![1, 0, 1]), Some(vec![true, false, true]));
    assert_eq!(deserialize(&vec![0, 0, 1]), Some(vec![false, false, true]));
    assert_eq!(deserialize(&vec![1, 1, 0]), Some(vec![true, true, false]));
    assert_eq!(deserialize(&vec![0, 1, 0]), Some(vec![false, true, false]));
    assert_eq!(deserialize(&vec![1, 0, 0]), Some(vec![true, false, false]));
    assert_eq!(deserialize(&vec![0, 1, 1]), Some(vec![false, true, true]));
    assert_eq!(deserialize(&vec![1, 1, 1]), Some(vec![true, true, true]));
}

#[test]
fn test_deserialize_rejects_other_values() {
    assert_eq!(deserialize(&vec![0, 2, 1]), None);
    assert_eq!(deserialize(&vec![-1]), None);
}

#[test]
fn test_wire_allocation_is_deterministic() {
    let mut b1 = WireAllocator { next: 0 };
    let mut b2 = WireAllocator { next: 0 };
    let t1 = hash_tree_root_validator_sha256(&mut b1);
    let t2 = hash_tree_root_validator_sha256(&mut b2);
    assert_eq!(t1.validator.pubkey, t2.validator.pubkey);
    assert_eq!(t1.hash_tree_root, t2.hash_tree_root);
    assert_eq!(b1.next, b2.next);
    assert_eq!(t1.validator.pubkey[0], 0);
    assert_eq!(t1.validator.withdrawal_credentials[0], 384);
    assert_eq!(t1.hash_tree_root.len(), 256);
}

#[test]
fn test_create_bool_target_array() {
    let mut b = WireAllocator { next: 7 };
    let arr = create_bool_target_array(&mut b);
    assert_eq!(arr.len(), 256);
    assert_eq!(arr[0], 7);
    assert_eq!(arr[255], 262);
    assert_eq!(b.next, 263);
}

#[test]
fn test_write_read_targets_roundtrip() {
    let mut b = WireAllocator { next: 100 };
    let targets = hash_tree_root_validator_sha256(&mut b).validator;
    let bytes = targets.write_targets();
    assert_eq!(bytes.len(), 8736);
    let back = ValidatorShaTargets::read_targets(&bytes).expect("read back what was written");
    assert_eq!(back.pubkey, targets.pubkey);
    assert_eq!(back.withdrawal_credentials, targets.withdrawal_credentials);
    assert_eq!(back.effective_balance, targets.effective_balance);
    assert_eq!(back.slashed, targets.slashed);
    assert_eq!(back.activation_eligibility_epoch, targets.activation_eligibility_epoch);
    assert_eq!(back.activation_epoch, targets.activation_epoch);
    assert_eq!(back.exit_epoch, targets.exit_epoch);
    assert_eq!(back.withdrawable_epoch, targets.withdrawable_epoch);
}

#[test]
fn test_read_targets_rejects_bad_counts() {
    let mut b = WireAllocator { next: 0 };
    let targets = hash_tree_root_validator_sha256(&mut b).validator;
    let bytes = targets.write_targets();
    // truncated buffer
    assert!(ValidatorShaTargets::read_targets(&bytes[..100].to_vec()).is_none());
    // corrupted count for the first field
    let mut bad = bytes.clone();
    bad[0] = 0;
    assert!(ValidatorShaTargets::read_targets(&bad).is_none());
}
