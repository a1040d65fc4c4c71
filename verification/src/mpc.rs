//! A simulation of dealing by several parties, none of whom chooses the
//! secret alone.

use vstd::prelude::*;
use crate::polynomial::polys_of;
use crate::scalar::{field_sum, random_scalar, Scalar};
use crate::sharing::{
    all_of_length, constant_terms, issue_share, numbered_and_consistent, random_polynomial,
    shares_of_contributions, sum_of_evaluations, ShareData,
};

verus! {

/// Each of `parties` parties draws a random polynomial of degree
/// `threshold - 1`. The secret is the sum of their constant terms, and the
/// share at each of the indices 1, ..., `n` is the sum of their values there.
/// The secret is returned for the sake of the simulation.
pub fn mpc_generate_key_shares(parties: usize, threshold: usize, n: usize) -> (r: (
    Scalar,
    Vec<ShareData>,
))
    requires
        1 <= threshold,
    ensures
        r.1.len() == n,
        numbered_and_consistent(r.1@),
        exists|polys: Seq<Seq<nat>>|
            polys.len() == parties && all_of_length(polys, threshold as nat) && r.0@ == field_sum(
                constant_terms(polys),
            ) && shares_of_contributions(r.1@, polys),
{
    let mut global_secret = Scalar::zero();
    let mut party_polynomials: Vec<Vec<Scalar>> = Vec::new();
    let mut p: usize = 0;
    assert(constant_terms(polys_of(party_polynomials@)).len() == 0);
    while p < parties
        invariant
            p <= parties,
            1 <= threshold,
            party_polynomials.len() == p,
            all_of_length(polys_of(party_polynomials@), threshold as nat),
            global_secret@ == field_sum(constant_terms(polys_of(party_polynomials@))),
        decreases parties - p,
    {
        let ghost before = polys_of(party_polynomials@);
        let poly = random_polynomial(random_scalar(), threshold);
        global_secret = global_secret.add(&poly[0]);
        party_polynomials.push(poly);
        proof {
            let after = polys_of(party_polynomials@);
            assert(constant_terms(after).drop_last() =~= constant_terms(before));
            assert(forall|i: int| 0 <= i < p ==> after[i] == before[i]);
        }
        p += 1;
    }
    let ghost pv = polys_of(party_polynomials@);
    let mut shares: Vec<ShareData> = Vec::new();
    let mut i: usize = 0;
    while i < n
        invariant
            i <= n,
            shares.len() == i,
            pv == polys_of(party_polynomials@),
            numbered_and_consistent(shares@),
            shares_of_contributions(shares@, pv),
        decreases n - i,
    {
        let index = i + 1;
        let x = Scalar::from_u64(index as u64);
        let aggregated_share = sum_of_evaluations(&party_polynomials, x);
        shares.push(issue_share(index, aggregated_share));
        i += 1;
    }
    assert(pv.len() == parties && all_of_length(pv, threshold as nat) && global_secret@
        == field_sum(constant_terms(pv)) && shares_of_contributions(shares@, pv));
    (global_secret, shares)
}

} // verus!
