//! Verification of share records against their commitments and proofs.

use vstd::prelude::*;
use crate::group::identity_encoding;
use crate::schnorr::{
    accepts_spec, is_proof_with, lemma_honest_proof_accepted, module_laws, verify_proof,
};
use crate::sharing::ShareData;

verus! {

/// The proof of the share is accepted for its commitment and index.
pub open spec fn share_verifies(share: ShareData) -> bool {
    accepts_spec(share.proof, share.commitment@, share.index as nat)
}

/// Whether the proof of every share is accepted for the share's commitment
/// and index; stops at the first that is not.
pub fn verify_share_validity(shares: &[ShareData]) -> (r: bool)
    ensures
        r == (forall|i: int| 0 <= i < shares.len() ==> share_verifies(#[trigger] shares[i])),
{
    let mut i: usize = 0;
    while i < shares.len()
        invariant
            i <= shares.len(),
            forall|k: int| 0 <= k < i ==> share_verifies(#[trigger] shares[k]),
        decreases shares.len() - i,
    {
        if !verify_proof(&shares[i].proof, shares[i].commitment, shares[i].index) {
            return false;
        }
        i += 1;
    }
    true
}

/// Every consistent share record verifies, where the group operations obey
/// the laws of a module over the field and the first message of the
/// record's proof is not the neutral element.
pub proof fn lemma_consistent_share_verifies(share: ShareData)
    requires
        module_laws(),
        share.consistent(),
        share.proof.t@ != identity_encoding(),
    ensures
        share_verifies(share),
{
    let (u, v) = choose|u: nat, v: nat|
        is_proof_with(
            share.proof,
            share.share@,
            share.random@,
            share.index as nat,
            share.commitment@,
            u,
            v,
        );
    lemma_honest_proof_accepted(
        share.proof,
        share.share@,
        share.random@,
        share.index as nat,
        u,
        v,
    );
}

} // verus!
