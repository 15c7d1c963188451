//! The opaque external resource names used by the proof orchestrator: a
//! validator-record cache key prefix, a validator-proof cache key prefix and
//! a pending-proof queue name. The core only carries them; it never reads
//! or writes the resources they name.

use vstd::prelude::*;

verus! {

/// The three named external resources, as loaded from configuration.
#[derive(Debug)]
pub struct ValidatorCommitmentConstants {
    pub validator_key: String,
    pub validator_proof_key: String,
    pub validator_proofs_queue: String,
}

} // verus!
