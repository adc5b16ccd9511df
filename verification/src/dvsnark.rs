//! The prover for DV-SNARK proofs over BN254.
use vstd::prelude::*;

verus! {

/// A prover that can generate proofs with the DV-SNARK protocol.
#[derive(Debug, Clone, Copy, PartialEq, Eq, Structural)]
pub struct DvSnarkBn254Prover;

impl DvSnarkBn254Prover {
    /// Creates a new prover.
    pub fn new() -> (prover: Self)
        ensures
            prover == DvSnarkBn254Prover,
    {
        DvSnarkBn254Prover
    }
}

impl Default for DvSnarkBn254Prover {
    fn default() -> (prover: Self)
        ensures
            prover == DvSnarkBn254Prover,
    {
        Self::new()
    }
}

} // verus!
