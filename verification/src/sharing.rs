//! Share records and their life cycle: issuing, proactive refresh and
//! resharing under a new threshold.

use vstd::prelude::*;
use crate::group::{pedersen_spec, Point};
use crate::lagrange_fft::{
    compute_lagrange_coefficients, lagrange_spec, share_points, LagrangeError,
};
use crate::polynomial::{
    coeff, lemma_add_evaluate_compatible, poly_add_spec, poly_eval_spec, poly_evaluate, polys_of,
};
use crate::scalar::{field_sum, lemma_modulus_large, modulus, random_scalar, values_of, Scalar};
use crate::schnorr::{generate_proof, is_proof_with, Proof};

verus! {

/// One share of a secret with the evidence that lets anyone check it.
#[derive(Clone, Debug, PartialEq, Eq)]
pub struct ShareData {
    /// The point at which the sharing polynomial was evaluated; never 0.
    pub index: usize,
    /// The value of the sharing polynomial at `index`.
    pub share: Scalar,
    /// The Pedersen commitment to `share` under `random`.
    pub commitment: Point,
    /// The blinding of the commitment.
    pub random: Scalar,
    /// The proof that binds share, blinding, index and commitment.
    pub proof: Proof,
}

impl ShareData {
    /// The commitment opens to the share under the blinding, and the proof
    /// is one that an honest prover makes for them.
    pub open spec fn consistent(&self) -> bool {
        &&& self.commitment@ == pedersen_spec(self.share@, self.random@)
        &&& exists|u: nat, v: nat|
            is_proof_with(
                self.proof,
                self.share@,
                self.random@,
                self.index as nat,
                self.commitment@,
                u,
                v,
            )
    }

    /// Overwrites the secret parts of the record, share and blinding, with 0.
    pub fn zeroize(&mut self)
        ensures
            final(self).share@ == 0,
            final(self).random@ == 0,
            final(self).index == old(self).index,
            final(self).commitment == old(self).commitment,
            final(self).proof == old(self).proof,
    {
        self.share.zeroize();
        self.random.zeroize();
    }
}

impl Drop for ShareData {
    /// The secret parts of a record are overwritten with 0 when it goes out
    /// of scope.
    fn drop(&mut self)
        opens_invariants none
        no_unwind
    {
        self.share.zeroize();
        self.random.zeroize();
    }
}

/// Every share is the value of `poly` at the share's index.
pub open spec fn shares_of_polynomial(shares: Seq<ShareData>, poly: Seq<nat>) -> bool {
    forall|i: int|
        0 <= i < shares.len() ==> (#[trigger] shares[i]).share@ == poly_eval_spec(
            poly,
            shares[i].index as nat,
        )
}

/// Every new share keeps its index and is the old share plus the value of
/// `delta` at that index.
pub open spec fn refreshed_by(before: Seq<ShareData>, after: Seq<ShareData>, delta: Seq<nat>) -> bool {
    &&& after.len() == before.len()
    &&& forall|i: int|
        0 <= i < after.len() ==> (#[trigger] after[i]).index == before[i].index && after[i].share@
            == (before[i].share@ + poly_eval_spec(delta, before[i].index as nat)) % modulus()
}

/// The sum of the values of the polynomials at `x`.
pub open spec fn eval_sum_spec(polys: Seq<Seq<nat>>, x: nat) -> nat
    decreases polys.len(),
{
    if polys.len() == 0 {
        0
    } else {
        (eval_sum_spec(polys.drop_last(), x) + poly_eval_spec(polys.last(), x)) % modulus()
    }
}

/// Every share is the sum of the values of the polynomials at the share's index.
pub open spec fn shares_of_contributions(shares: Seq<ShareData>, polys: Seq<Seq<nat>>) -> bool {
    forall|i: int|
        0 <= i < shares.len() ==> (#[trigger] shares[i]).share@ == eval_sum_spec(
            polys,
            shares[i].index as nat,
        )
}

/// Every blinding is the sum of the values of the polynomials at the share's
/// index.
pub open spec fn blinded_by_contributions(shares: Seq<ShareData>, polys: Seq<Seq<nat>>) -> bool {
    forall|i: int|
        0 <= i < shares.len() ==> (#[trigger] shares[i]).random@ == eval_sum_spec(
            polys,
            shares[i].index as nat,
        )
}

/// The shares carry the indices 1, 2, ... in order and are consistent.
pub open spec fn numbered_and_consistent(shares: Seq<ShareData>) -> bool {
    forall|i: int|
        0 <= i < shares.len() ==> (#[trigger] shares[i]).index == i + 1 && shares[i].consistent()
}

/// The index is not 0 and no earlier share has it.
pub open spec fn index_acceptable(shares: Seq<ShareData>, k: int) -> bool {
    &&& shares[k].index != 0
    &&& forall|j: int| 0 <= j < k ==> (#[trigger] shares[j]).index != shares[k].index
}

/// The error that the share at `k` is refused with.
pub open spec fn index_error(shares: Seq<ShareData>, k: int) -> LagrangeError {
    if shares[k].index == 0 {
        LagrangeError::InvalidShareIndex { index: 0 }
    } else {
        LagrangeError::DuplicateShareIndex { index: shares[k].index }
    }
}

/// The constant terms that the holders of the old shares contribute: each
/// share weighted with its Lagrange coefficient.
pub open spec fn weighted_shares(shares: Seq<ShareData>, lambda: Seq<nat>) -> Seq<nat> {
    Seq::new(shares.len(), |i: int| (shares[i].share@ * lambda[i]) % modulus())
}

/// Every polynomial has `len` coefficients and the constant term given for it.
pub open spec fn contributions_with(polys: Seq<Seq<nat>>, constants: Seq<nat>, len: nat) -> bool {
    &&& polys.len() == constants.len()
    &&& forall|i: int|
        0 <= i < polys.len() ==> (#[trigger] polys[i]).len() == len && polys[i][0] == constants[i]
}

/// A record for the share value at the index, with a fresh blinding.
pub fn issue_share(index: usize, share: Scalar) -> (r: ShareData)
    ensures
        r.index == index,
        r.share == share,
        r.consistent(),
{
    let random = random_scalar();
    seal_share(index, share, random)
}

/// A record for the share value at the index under the given blinding, with
/// a fresh proof.
pub fn seal_share(index: usize, share: Scalar, random: Scalar) -> (r: ShareData)
    ensures
        r.index == index,
        r.share == share,
        r.random == random,
        r.consistent(),
{
    let commitment = Point::commit(&share, &random);
    let proof = generate_proof(share, random, index, commitment);
    let record = ShareData { index, share, commitment, random, proof };
    proof {
        let (u, v) = choose|u: nat, v: nat|
            is_proof_with(proof, share@, random@, index as nat, commitment@, u, v);
        assert(is_proof_with(
            record.proof,
            record.share@,
            record.random@,
            record.index as nat,
            record.commitment@,
            u,
            v,
        ));
    }
    record
}

/// A polynomial with the given constant term and random other coefficients,
/// `len` coefficients in all (one, if `len` is 0).
pub fn random_polynomial(constant: Scalar, len: usize) -> (r: Vec<Scalar>)
    ensures
        r.len() == if len == 0 { 1 } else { len },
        r[0] == constant,
{
    let mut coeffs: Vec<Scalar> = Vec::new();
    coeffs.push(constant);
    let mut k: usize = 1;
    while k < len
        invariant
            1 <= k,
            k <= len || len == 0,
            len == 0 ==> k == 1,
            coeffs.len() == k,
            coeffs[0] == constant,
        decreases len - k,
    {
        coeffs.push(random_scalar());
        k += 1;
    }
    coeffs
}

/// The sum of the values of the polynomials at `x`.
pub fn sum_of_evaluations(polys: &Vec<Vec<Scalar>>, x: Scalar) -> (r: Scalar)
    ensures
        r@ == eval_sum_spec(polys_of(polys@), x@),
{
    let ghost pv = polys_of(polys@);
    let mut total = Scalar::zero();
    let mut p: usize = 0;
    assert(pv.subrange(0, 0).len() == 0);
    while p < polys.len()
        invariant
            p <= polys.len(),
            pv == polys_of(polys@),
            total@ == eval_sum_spec(pv.subrange(0, p as int), x@),
        decreases polys.len() - p,
    {
        let value = poly_evaluate(polys[p].as_slice(), x);
        total = total.add(&value);
        proof {
            let next = pv.subrange(0, p + 1);
            assert(next.drop_last() =~= pv.subrange(0, p as int));
            assert(next.last() == values_of(polys[p as int]@));
        }
        p += 1;
    }
    assert(pv.subrange(0, pv.len() as int) =~= pv);
    total
}

/// Shares of `secret`: the values at 1, ..., `n` of a random polynomial of
/// degree `threshold - 1` whose constant term is the secret.
pub fn generate_key_shares(secret: Scalar, threshold: usize, n: usize) -> (r: Vec<ShareData>)
    requires
        1 <= threshold <= n,
    ensures
        r.len() == n,
        numbered_and_consistent(r@),
        exists|poly: Seq<nat>|
            poly.len() == threshold && poly[0] == secret@ && shares_of_polynomial(r@, poly),
{
    let poly = random_polynomial(secret, threshold);
    let ghost pv = values_of(poly@);
    let mut shares: Vec<ShareData> = Vec::new();
    let mut i: usize = 0;
    while i < n
        invariant
            i <= n,
            shares.len() == i,
            pv == values_of(poly@),
            numbered_and_consistent(shares@),
            shares_of_polynomial(shares@, pv),
        decreases n - i,
    {
        let index = i + 1;
        let x = Scalar::from_u64(index as u64);
        let value = poly_evaluate(poly.as_slice(), x);
        shares.push(issue_share(index, value));
        i += 1;
    }
    assert(pv.len() == threshold && pv[0] == secret@ && shares_of_polynomial(shares@, pv));
    shares
}

/// Proactive refresh: every share moves by the value at its index of one
/// random polynomial of degree `threshold - 1` with constant term 0, and gets
/// a new blinding, commitment and proof.
pub fn update_shares(shares: &[ShareData], threshold: usize) -> (r: Vec<ShareData>)
    requires
        1 <= threshold,
    ensures
        forall|i: int| 0 <= i < r.len() ==> (#[trigger] r[i]).consistent(),
        exists|delta: Seq<nat>|
            delta.len() == threshold && delta[0] == 0 && refreshed_by(shares@, r@, delta),
{
    let delta = random_polynomial(Scalar::zero(), threshold);
    let ghost dv = values_of(delta@);
    let mut updated: Vec<ShareData> = Vec::new();
    let mut i: usize = 0;
    while i < shares.len()
        invariant
            i <= shares.len(),
            updated.len() == i,
            dv == values_of(delta@),
            forall|k: int| 0 <= k < i ==> (#[trigger] updated[k]).consistent(),
            refreshed_by(shares@.subrange(0, i as int), updated@, dv),
        decreases shares.len() - i,
    {
        let index = shares[i].index;
        let x = Scalar::from_u64(index as u64);
        let update_val = poly_evaluate(delta.as_slice(), x);
        let new_share = shares[i].share.add(&update_val);
        updated.push(issue_share(index, new_share));
        i += 1;
    }
    assert(shares@.subrange(0, shares@.len() as int) =~= shares@);
    assert(dv.len() == threshold && dv[0] == 0 && refreshed_by(shares@, updated@, dv));
    updated
}

/// What resharing gives where the old shares are enough and their indices
/// acceptable: the error of the Lagrange coefficients, or new shares that
/// are sums of the values of one polynomial per old share, whose constant
/// term is that share weighted with its Lagrange coefficient.
pub open spec fn reshared(
    existing: Seq<ShareData>,
    new_threshold: usize,
    n: usize,
    r: Result<Vec<ShareData>, LagrangeError>,
) -> bool {
    match lagrange_spec(share_points(existing)) {
        Err(e) => r == Err::<Vec<ShareData>, LagrangeError>(e),
        Ok(lambda) => r.is_ok() && reshared_with(existing, lambda, new_threshold, n, r.unwrap()@),
    }
}

/// The new shares are numbered from 1, consistent, and sums of the values
/// of one polynomial per old share, whose constant term is that share
/// weighted with its Lagrange coefficient; their blindings are sums of the
/// values of one polynomial per old share with the constant term 0.
pub open spec fn reshared_with(
    existing: Seq<ShareData>,
    lambda: Seq<nat>,
    new_threshold: usize,
    n: usize,
    shares: Seq<ShareData>,
) -> bool {
    &&& shares.len() == n
    &&& numbered_and_consistent(shares)
    &&& exists|polys: Seq<Seq<nat>>|
        contributions_with(
            polys,
            weighted_shares(existing, lambda),
            if new_threshold == 0 { 1 } else { new_threshold as nat },
        ) && shares_of_contributions(shares, polys)
    &&& exists|blinds: Seq<Seq<nat>>|
        contributions_with(
            blinds,
            Seq::new(existing.len(), |i: int| 0nat),
            if new_threshold == 0 { 1 } else { new_threshold as nat },
        ) && blinded_by_contributions(shares, blinds)
}

/// Resharing: `n` new shares of the same secret under the threshold
/// `new_threshold`, made from at least `original_threshold` old shares.
pub fn adjust_threshold(
    existing_shares: &[ShareData],
    original_threshold: usize,
    new_threshold: usize,
    n: usize,
) -> (r: Result<Vec<ShareData>, LagrangeError>)
    ensures
        existing_shares.len() < original_threshold ==> r == Err::<Vec<ShareData>, LagrangeError>(
            LagrangeError::InsufficientShares {
                needed: original_threshold,
                provided: existing_shares.len(),
            },
        ),
        forall|k: int|
            existing_shares.len() >= original_threshold && 0 <= k < existing_shares.len()
                && !index_acceptable(existing_shares@, k) && (forall|j: int|
                0 <= j < k ==> index_acceptable(existing_shares@, j)) ==> r == Err::<
                Vec<ShareData>,
                LagrangeError,
            >(index_error(existing_shares@, k)),
        existing_shares.len() >= original_threshold && (forall|k: int|
            0 <= k < existing_shares.len() ==> index_acceptable(existing_shares@, k)) ==> reshared(
            existing_shares@,
            new_threshold,
            n,
            r,
        ),
{
    let m = existing_shares.len();
    if m < original_threshold {
        return Err(LagrangeError::InsufficientShares { needed: original_threshold, provided: m });
    }
    let mut indices: Vec<Scalar> = Vec::new();
    let mut k: usize = 0;
    while k < m
        invariant
            k <= m,
            m == existing_shares.len(),
            m >= original_threshold,
            indices.len() == k,
            forall|j: int| 0 <= j < k ==> index_acceptable(existing_shares@, j),
            values_of(indices@) == share_points(existing_shares@.subrange(0, k as int)),
        decreases m - k,
    {
        let index = existing_shares[k].index;
        if index == 0 {
            assert(!index_acceptable(existing_shares@, k as int));
            return Err(LagrangeError::InvalidShareIndex { index });
        }
        let mut j: usize = 0;
        while j < k
            invariant
                j <= k,
                k < m,
                m == existing_shares.len(),
                m >= original_threshold,
                index != 0,
                index == existing_shares[k as int].index,
                forall|t: int| 0 <= t < k ==> index_acceptable(existing_shares@, t),
                forall|t: int| 0 <= t < j ==> (#[trigger] existing_shares[t]).index != index,
                indices.len() == k,
                values_of(indices@) == share_points(existing_shares@.subrange(0, k as int)),
            decreases k - j,
        {
            if existing_shares[j].index == index {
                assert(!index_acceptable(existing_shares@, k as int));
                return Err(LagrangeError::DuplicateShareIndex { index });
            }
            j += 1;
        }
        let ghost before = values_of(indices@);
        indices.push(Scalar::from_u64(index as u64));
        assert(index_acceptable(existing_shares@, k as int));
        proof {
            let after = values_of(indices@);
            let want = share_points(existing_shares@.subrange(0, k + 1));
            assert forall|t: int| 0 <= t < k + 1 implies after[t] == want[t] by {
                if t < k {
                    assert(after[t] == before[t]);
                    assert(before[t] == share_points(existing_shares@.subrange(0, k as int))[t]);
                }
            }
            assert(after =~= want);
        }
        k += 1;
    }
    assert(existing_shares@.subrange(0, m as int) =~= existing_shares@);
    let ghost expected = lagrange_spec(share_points(existing_shares@));
    let lambda = match compute_lagrange_coefficients(indices.as_slice()) {
        Ok(lambda) => lambda,
        Err(e) => {
            assert(expected == Err::<Seq<nat>, LagrangeError>(e));
            return Err(e);
        },
    };
    assert(expected == Ok::<Seq<nat>, LagrangeError>(values_of(lambda@)));
    let ghost lv = values_of(lambda@);
    let ghost constants = weighted_shares(existing_shares@, lv);
    assert(lv.len() == m);
    let len = if new_threshold == 0 { 1 } else { new_threshold };
    let mut share_polys: Vec<Vec<Scalar>> = Vec::new();
    let mut blind_polys: Vec<Vec<Scalar>> = Vec::new();
    let mut i: usize = 0;
    while i < m
        invariant
            i <= m,
            m == existing_shares.len(),
            lambda.len() == m,
            lv == values_of(lambda@),
            expected == Ok::<Seq<nat>, LagrangeError>(lv),
            constants == weighted_shares(existing_shares@, lv),
            len == if new_threshold == 0 { 1 } else { new_threshold },
            share_polys.len() == i,
            blind_polys.len() == i,
            contributions_with(polys_of(share_polys@), constants.subrange(0, i as int), len as nat),
            contributions_with(
                polys_of(blind_polys@),
                Seq::new(i as nat, |t: int| 0nat),
                len as nat,
            ),
        decreases m - i,
    {
        let const_term = existing_shares[i].share.mul(&lambda[i]);
        let poly = random_polynomial(const_term, new_threshold);
        let ghost before = polys_of(share_polys@);
        let ghost added = values_of(poly@);
        assert(added.len() == len && added[0] == constants[i as int]) by {
            assert(lv[i as int] == lambda[i as int]@);
        }
        share_polys.push(poly);
        let blind = random_polynomial(Scalar::zero(), new_threshold);
        let ghost blinds_before = polys_of(blind_polys@);
        let ghost blind_added = values_of(blind@);
        assert(blind_added.len() == len && blind_added[0] == 0);
        blind_polys.push(blind);
        proof {
            let blinds_after = polys_of(blind_polys@);
            assert forall|t: int| 0 <= t < i + 1 implies (#[trigger] blinds_after[t]).len() == len
                && blinds_after[t][0] == 0 by {
                if t < i {
                    assert(blinds_after[t] == blinds_before[t]);
                } else {
                    assert(blinds_after[t] == blind_added);
                }
            }
            let after = polys_of(share_polys@);
            assert forall|t: int| 0 <= t < i + 1 implies (#[trigger] after[t]).len() == len
                && after[t][0] == constants.subrange(0, i + 1)[t] by {
                if t < i {
                    assert(after[t] == before[t]);
                    assert(constants.subrange(0, i as int)[t] == constants[t]);
                } else {
                    assert(after[t] == added);
                }
            }
        }
        i += 1;
    }
    assert(constants.subrange(0, m as int) =~= constants);
    let ghost pv = polys_of(share_polys@);
    let ghost bv = polys_of(blind_polys@);
    let mut new_shares: Vec<ShareData> = Vec::new();
    let mut j: usize = 0;
    while j < n
        invariant
            j <= n,
            new_shares.len() == j,
            pv == polys_of(share_polys@),
            bv == polys_of(blind_polys@),
            numbered_and_consistent(new_shares@),
            shares_of_contributions(new_shares@, pv),
            blinded_by_contributions(new_shares@, bv),
        decreases n - j,
    {
        let index = j + 1;
        let x = Scalar::from_u64(index as u64);
        let share_val = sum_of_evaluations(&share_polys, x);
        let rand_val = sum_of_evaluations(&blind_polys, x);
        new_shares.push(seal_share(index, share_val, rand_val));
        j += 1;
    }
    let ghost width = if new_threshold == 0 { 1nat } else { new_threshold as nat };
    assert(lagrange_spec(share_points(existing_shares@)) == Ok::<Seq<nat>, LagrangeError>(lv));
    assert(contributions_with(pv, weighted_shares(existing_shares@, lv), width)
        && shares_of_contributions(new_shares@, pv));
    assert(contributions_with(bv, Seq::new(existing_shares@.len(), |i: int| 0nat), width)
        && blinded_by_contributions(new_shares@, bv));
    assert(reshared_with(existing_shares@, lv, new_threshold, n, new_shares@));
    Ok(new_shares)
}

/// The constant terms of the polynomials.
pub open spec fn constant_terms(polys: Seq<Seq<nat>>) -> Seq<nat> {
    Seq::new(polys.len(), |i: int| polys[i][0])
}

/// Every polynomial has `len` coefficients.
pub open spec fn all_of_length(polys: Seq<Seq<nat>>, len: nat) -> bool {
    forall|i: int| 0 <= i < polys.len() ==> (#[trigger] polys[i]).len() == len
}

/// The sum of the polynomials.
pub open spec fn poly_sum_spec(polys: Seq<Seq<nat>>) -> Seq<nat>
    decreases polys.len(),
{
    if polys.len() == 0 {
        Seq::empty()
    } else {
        poly_add_spec(poly_sum_spec(polys.drop_last()), polys.last())
    }
}

/// The sum of the values of polynomials is the value of their sum.
pub proof fn lemma_sum_of_values(polys: Seq<Seq<nat>>, x: nat)
    ensures
        eval_sum_spec(polys, x) == poly_eval_spec(poly_sum_spec(polys), x),
    decreases polys.len(),
{
    if polys.len() > 0 {
        lemma_sum_of_values(polys.drop_last(), x);
        lemma_add_evaluate_compatible(poly_sum_spec(polys.drop_last()), polys.last(), x);
    }
}

/// The sum of polynomials of one length has that length, and its constant
/// term is the sum of their constant terms.
pub proof fn lemma_sum_shape(polys: Seq<Seq<nat>>, len: nat)
    requires
        polys.len() >= 1,
        len >= 1,
        all_of_length(polys, len),
    ensures
        poly_sum_spec(polys).len() == len,
        poly_sum_spec(polys)[0] == field_sum(constant_terms(polys)),
    decreases polys.len(),
{
    lemma_modulus_large();
    let front = polys.drop_last();
    let last = polys[polys.len() - 1];
    let terms = constant_terms(polys);
    assert(terms.drop_last() =~= constant_terms(front));
    assert(polys.last() == last && last.len() == len);
    assert(terms.last() == last[0]);
    let head = poly_sum_spec(front);
    assert(poly_sum_spec(polys) == poly_add_spec(head, last));
    if front.len() == 0 {
        assert(head.len() == 0);
        assert(field_sum(constant_terms(front)) == 0);
    } else {
        assert forall|i: int| 0 <= i < front.len() implies (#[trigger] front[i]).len() == len by {
            assert(front[i] == polys[i]);
        }
        lemma_sum_shape(front, len);
    }
    assert(coeff(head, 0) == field_sum(constant_terms(front)));
    assert(poly_add_spec(head, last)[0] == (coeff(head, 0) + coeff(last, 0)) % modulus());
    assert(field_sum(terms) == (field_sum(terms.drop_last()) + terms.last()) % modulus());
}

/// Refreshed shares lie on the sum of the sharing polynomial and the
/// refreshing polynomial, which has the same constant term: the secret stays.
pub proof fn lemma_refresh_keeps_constant_term(
    before: Seq<ShareData>,
    after: Seq<ShareData>,
    poly: Seq<nat>,
    delta: Seq<nat>,
)
    requires
        shares_of_polynomial(before, poly),
        refreshed_by(before, after, delta),
        poly.len() >= 1,
        delta.len() == poly.len(),
        delta[0] == 0,
        poly[0] < modulus(),
    ensures
        shares_of_polynomial(after, poly_add_spec(poly, delta)),
        poly_add_spec(poly, delta).len() == poly.len(),
        poly_add_spec(poly, delta)[0] == poly[0],
{
    assert forall|i: int| 0 <= i < after.len() implies (#[trigger] after[i]).share@
        == poly_eval_spec(poly_add_spec(poly, delta), after[i].index as nat) by {
        assert(before[i].share@ == poly_eval_spec(poly, before[i].index as nat));
        lemma_add_evaluate_compatible(poly, delta, before[i].index as nat);
    }
    vstd::arithmetic::div_mod::lemma_small_mod(poly[0], modulus());
}

/// Shares that are sums of the values of several polynomials of one length
/// lie on one polynomial of that length: the sum, whose constant term is
/// the sum of the constant terms.
pub proof fn lemma_contributions_on_polynomial(
    shares: Seq<ShareData>,
    polys: Seq<Seq<nat>>,
    len: nat,
)
    requires
        shares_of_contributions(shares, polys),
        polys.len() >= 1,
        len >= 1,
        all_of_length(polys, len),
    ensures
        shares_of_polynomial(shares, poly_sum_spec(polys)),
        poly_sum_spec(polys).len() == len,
        poly_sum_spec(polys)[0] == field_sum(constant_terms(polys)),
{
    assert forall|i: int| 0 <= i < shares.len() implies (#[trigger] shares[i]).share@
        == poly_eval_spec(poly_sum_spec(polys), shares[i].index as nat) by {
        lemma_sum_of_values(polys, shares[i].index as nat);
    }
    lemma_sum_shape(polys, len);
}

/// After resharing, the new shares lie on one polynomial of the new
/// threshold's length, whose constant term is the sum of the old shares
/// weighted with their Lagrange coefficients.
pub proof fn lemma_reshared_on_polynomial(
    existing: Seq<ShareData>,
    lambda: Seq<nat>,
    new_threshold: usize,
    n: usize,
    shares: Seq<ShareData>,
)
    requires
        existing.len() >= 1,
        reshared_with(existing, lambda, new_threshold, n, shares),
    ensures
        exists|poly: Seq<nat>|
            poly.len() == (if new_threshold == 0 { 1 } else { new_threshold as nat }) && poly[0]
                == field_sum(weighted_shares(existing, lambda)) && shares_of_polynomial(
                shares,
                poly,
            ),
{
    let len = if new_threshold == 0 { 1 } else { new_threshold as nat };
    let constants = weighted_shares(existing, lambda);
    let polys = choose|polys: Seq<Seq<nat>>|
        contributions_with(polys, constants, len) && shares_of_contributions(shares, polys);
    assert(constant_terms(polys) =~= constants);
    lemma_contributions_on_polynomial(shares, polys, len);
    let poly = poly_sum_spec(polys);
    assert(poly.len() == len && poly[0] == field_sum(constants) && shares_of_polynomial(
        shares,
        poly,
    ));
}

} // verus!
