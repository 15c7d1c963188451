pub mod binary;
pub mod sha256;
pub mod utils;
pub mod validator;
pub mod validator_commitment_constants;
pub mod validator_hash_tree_root;

use vstd::prelude::*;

verus! {

/// Width in bits of one SHA-256 leaf slot, and of every SSZ field slot.
pub const ETH_SHA256_BIT_SIZE: usize = 256;

} // verus!
