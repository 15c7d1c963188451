//! End-to-end regression of the validator hash-tree-root composition
//! against a fixed witness and its known root.

use circuits::validator::Validator;

fn hex_bits(hex: &str) -> Vec<bool> {
    let mut bits = Vec::new();
    for c in hex.chars() {
        let v = c.to_digit(16).expect("hex digit");
        for i in 0..4 {
            bits.push((v >> (3 - i)) & 1 == 1);
        }
    }
    bits
}

#[test]
fn test_validator_hash_tree_root() {
    let mut pubkey = hex_bits("933ad9491b62059dd065b560d256d8957a8c402cc6e8d8ee7290ae11e8f73292");
    pubkey.extend(hex_bits("67a8811c397529dac52ae1342ba58c95"));
    let withdrawal_credentials = hex_bits(
        "0100000000000000000000000d369bb49efa5100fd3b86a9f828c55da04d2d50",
    );
    let effective_balance = hex_bits(
        "0040597307000000000000000000000000000000000000000000000000000000",
    );
    let slashed = hex_bits("0000000000000000000000000000000000000000000000000000000000000000");
    let activation_eligibility_epoch = slashed.clone();
    let activation_epoch: Vec<bool> = vec![false; 256];
    let exit_epoch: Vec<bool> = (0..256).map(|i| i < 64).collect();
    let withdrawable_epoch = hex_bits(
        "ffffffffffffffff000000000000000000000000000000000000000000000000",
    );
    let expected_root = hex_bits(
        "2baf4065b5d6246410518c7981e5507ce82d46d87f8099df52c396c3b62b0fd5",
    );

    assert_eq!(pubkey.len(), 384);

    let validator = Validator {
        pubkey,
        withdrawal_credentials,
        effective_balance,
        slashed,
        activation_eligibility_epoch,
        activation_epoch,
        exit_epoch,
        withdrawable_epoch,
    };

    let root = validator.hash_tree_root();
    assert_eq!(root, expected_root);
}
