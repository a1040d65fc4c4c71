//! Lagrange coefficients at zero and the reconstruction of a secret from
//! shares.

use vstd::prelude::*;
use vstd::string::StringExecFns;
use crate::polynomial::{
    poly_derivative, poly_derivative_spec, poly_eval_spec, poly_evaluate, poly_product,
    poly_product_spec, polys_of, total_len,
};
use crate::scalar::{field_inv, field_neg, field_sub, modulus, values_of, Scalar};
use crate::sharing::ShareData;
use crate::utils::{decimal, decimal_spec};

verus! {

/// Why coefficients or a secret could not be computed.
#[derive(Clone, Copy, Debug, PartialEq, Eq, Structural)]
pub enum LagrangeError {
    /// Fewer shares than are needed.
    InsufficientShares { needed: usize, provided: usize },
    /// A share with the index 0.
    InvalidShareIndex { index: usize },
    /// Two shares with one index.
    DuplicateShareIndex { index: usize },
    /// The derivative of the vanishing polynomial is 0 at a share's index.
    ZeroDerivative { index: usize },
    /// A polynomial beyond the degree that is supported.
    PolynomialDegreeTooHigh { degree: usize },
    /// Shares that claim to hold the secret itself and disagree.
    NumericalInstability,
}

impl LagrangeError {
    /// The message of the error.
    pub open spec fn message_spec(&self) -> Seq<char> {
        match self {
            LagrangeError::InsufficientShares { needed, provided } =>
                "Insufficient shares: need at least "@ + decimal_spec(*needed as nat) + ", got "@
                    + decimal_spec(*provided as nat),
            LagrangeError::InvalidShareIndex { index } => "Invalid share index: "@ + decimal_spec(
                *index as nat,
            ) + " (must be non-zero)"@,
            LagrangeError::DuplicateShareIndex { index } => "Duplicate share index: "@
                + decimal_spec(*index as nat),
            LagrangeError::ZeroDerivative { index } => "Zero derivative at share "@ + decimal_spec(
                *index as nat,
            ),
            LagrangeError::PolynomialDegreeTooHigh { degree } => "Polynomial degree too high: "@
                + decimal_spec(*degree as nat),
            LagrangeError::NumericalInstability => "Numerical instability detected"@,
        }
    }

    /// The message of the error.
    pub fn message(&self) -> (r: String)
        ensures
            r@ == self.message_spec(),
    {
        match self {
            LagrangeError::InsufficientShares { needed, provided } => String::from_str(
                "Insufficient shares: need at least ",
            ).concat(decimal(*needed as u64).as_str()).concat(", got ").concat(
                decimal(*provided as u64).as_str(),
            ),
            LagrangeError::InvalidShareIndex { index } => String::from_str(
                "Invalid share index: ",
            ).concat(decimal(*index as u64).as_str()).concat(" (must be non-zero)"),
            LagrangeError::DuplicateShareIndex { index } => String::from_str(
                "Duplicate share index: ",
            ).concat(decimal(*index as u64).as_str()),
            LagrangeError::ZeroDerivative { index } => String::from_str(
                "Zero derivative at share ",
            ).concat(decimal(*index as u64).as_str()),
            LagrangeError::PolynomialDegreeTooHigh { degree } => String::from_str(
                "Polynomial degree too high: ",
            ).concat(decimal(*degree as u64).as_str()),
            LagrangeError::NumericalInstability => String::from_str(
                "Numerical instability detected",
            ),
        }
    }
}

/// A measurement of one operation.
#[derive(Clone, Debug)]
pub struct PerformanceMetrics {
    /// What was done.
    pub operation_type: String,
    /// How long it took, in nanoseconds.
    pub duration_ns: u64,
    /// How many items it worked on.
    pub input_size: usize,
    /// By which algorithm.
    pub algorithm_used: String,
}

/// The first position below `m` that holds the same value as position `i`.
pub open spec fn earlier_equal(xs: Seq<nat>, i: int, m: nat) -> Option<int>
    decreases m,
{
    if m == 0 {
        None
    } else {
        match earlier_equal(xs, i, (m - 1) as nat) {
            Some(j) => Some(j),
            None => if xs[m - 1] == xs[i] {
                Some(m - 1)
            } else {
                None
            },
        }
    }
}

/// For the first position below `n` whose value occurred before it: the
/// position where it occurred.
pub open spec fn first_duplicate(xs: Seq<nat>, n: nat) -> Option<int>
    decreases n,
{
    if n == 0 {
        None
    } else {
        match first_duplicate(xs, (n - 1) as nat) {
            Some(j) => Some(j),
            None => earlier_equal(xs, n - 1, (n - 1) as nat),
        }
    }
}

/// The product of the `x_j` with `j < n` and `j != i`.
pub open spec fn numerator_spec(xs: Seq<nat>, i: int, n: nat) -> nat
    decreases n,
{
    if n == 0 {
        1
    } else if n - 1 == i {
        numerator_spec(xs, i, (n - 1) as nat)
    } else {
        (numerator_spec(xs, i, (n - 1) as nat) * xs[n - 1]) % modulus()
    }
}

/// The product of the `x_i - x_j` with `j < n` and `j != i`.
pub open spec fn denominator_spec(xs: Seq<nat>, i: int, n: nat) -> nat
    decreases n,
{
    if n == 0 {
        1
    } else if n - 1 == i {
        denominator_spec(xs, i, (n - 1) as nat)
    } else {
        (denominator_spec(xs, i, (n - 1) as nat) * field_sub(xs[i], xs[n - 1])) % modulus()
    }
}

/// The sign `(-1)^(m-1)` in the field.
pub open spec fn sign_spec(m: nat) -> nat {
    if (m - 1) % 2 == 0 {
        1
    } else {
        field_neg(1)
    }
}

/// The Lagrange coefficient at zero of the `i`-th of the points `xs`:
/// `(-1)^(m-1)` times the product of the others, divided by the product of
/// the differences to the others.
pub open spec fn lagrange_coefficient_spec(xs: Seq<nat>, i: int) -> nat {
    (((sign_spec(xs.len()) * numerator_spec(xs, i, xs.len())) % modulus()) * field_inv(
        denominator_spec(xs, i, xs.len()),
    )) % modulus()
}

/// The first position below `n` at which the product of differences is 0.
pub open spec fn first_zero_denominator(xs: Seq<nat>, n: nat) -> Option<int>
    decreases n,
{
    if n == 0 {
        None
    } else {
        match first_zero_denominator(xs, (n - 1) as nat) {
            Some(i) => Some(i),
            None => if denominator_spec(xs, n - 1, xs.len()) == 0 {
                Some(n - 1)
            } else {
                None
            },
        }
    }
}

/// What the computation of the Lagrange coefficients gives for the points
/// `xs`. Errors name a position counted from 1.
pub open spec fn lagrange_spec(xs: Seq<nat>) -> Result<Seq<nat>, LagrangeError> {
    if xs.len() == 0 {
        Err(LagrangeError::InsufficientShares { needed: 1, provided: 0 })
    } else {
        match first_duplicate(xs, xs.len()) {
            Some(j) => Err(LagrangeError::DuplicateShareIndex { index: (j + 1) as usize }),
            None => match first_zero_denominator(xs, xs.len()) {
                Some(i) => Err(LagrangeError::ZeroDerivative { index: (i + 1) as usize }),
                None => Ok(Seq::new(xs.len(), |i: int| lagrange_coefficient_spec(xs, i))),
            },
        }
    }
}

/// A result over scalars agrees with a result over their values.
pub open spec fn coefficients_agree(
    r: Result<Vec<Scalar>, LagrangeError>,
    expected: Result<Seq<nat>, LagrangeError>,
) -> bool {
    match expected {
        Ok(values) => r.is_ok() && values_of(r.unwrap()@) == values,
        Err(e) => r == Err::<Vec<Scalar>, LagrangeError>(e),
    }
}

/// A result over a scalar agrees with a result over its value.
pub open spec fn secret_agrees(
    r: Result<Scalar, LagrangeError>,
    expected: Result<nat, LagrangeError>,
) -> bool {
    match expected {
        Ok(value) => r.is_ok() && r.unwrap()@ == value,
        Err(e) => r == Err::<Scalar, LagrangeError>(e),
    }
}

proof fn lemma_earlier_equal_stays(xs: Seq<nat>, i: int, m: nat, n: nat)
    requires
        m <= n,
        earlier_equal(xs, i, m).is_some(),
    ensures
        earlier_equal(xs, i, n) == earlier_equal(xs, i, m),
    decreases n - m,
{
    if m < n {
        lemma_earlier_equal_stays(xs, i, m, (n - 1) as nat);
    }
}

proof fn lemma_first_duplicate_stays(xs: Seq<nat>, m: nat, n: nat)
    requires
        m <= n,
        first_duplicate(xs, m).is_some(),
    ensures
        first_duplicate(xs, n) == first_duplicate(xs, m),
    decreases n - m,
{
    if m < n {
        lemma_first_duplicate_stays(xs, m, (n - 1) as nat);
    }
}

proof fn lemma_first_zero_stays(xs: Seq<nat>, m: nat, n: nat)
    requires
        m <= n,
        first_zero_denominator(xs, m).is_some(),
    ensures
        first_zero_denominator(xs, n) == first_zero_denominator(xs, m),
    decreases n - m,
{
    if m < n {
        lemma_first_zero_stays(xs, m, (n - 1) as nat);
    }
}

/// The Lagrange coefficients at zero for the given points, which must be
/// pairwise different.
pub fn compute_lagrange_coefficients(indices: &[Scalar]) -> (r: Result<Vec<Scalar>, LagrangeError>)
    ensures
        coefficients_agree(r, lagrange_spec(values_of(indices@))),
{
    let ghost xs = values_of(indices@);
    let m = indices.len();
    if m == 0 {
        return Err(LagrangeError::InsufficientShares { needed: 1, provided: 0 });
    }
    let mut i: usize = 0;
    while i < m
        invariant
            i <= m,
            m == indices.len(),
            xs == values_of(indices@),
            first_duplicate(xs, i as nat).is_none(),
        decreases m - i,
    {
        let mut j: usize = 0;
        while j < i
            invariant
                j <= i,
                i < m,
                m == indices.len(),
                xs == values_of(indices@),
                first_duplicate(xs, i as nat).is_none(),
                earlier_equal(xs, i as int, j as nat).is_none(),
            decreases i - j,
        {
            if indices[j].equals(&indices[i]) {
                proof {
                    assert(earlier_equal(xs, i as int, (j + 1) as nat) == Some(j as int));
                    lemma_earlier_equal_stays(xs, i as int, (j + 1) as nat, i as nat);
                    assert(first_duplicate(xs, (i + 1) as nat) == Some(j as int));
                    lemma_first_duplicate_stays(xs, (i + 1) as nat, m as nat);
                }
                return Err(LagrangeError::DuplicateShareIndex { index: j + 1 });
            }
            j += 1;
        }
        i += 1;
    }
    let one = Scalar::one();
    let sign = if (m - 1) % 2 == 0 { one } else { one.neg() };
    let mut coefficients: Vec<Scalar> = Vec::with_capacity(m);
    let mut i: usize = 0;
    while i < m
        invariant
            i <= m,
            m == indices.len(),
            xs == values_of(indices@),
            xs.len() == m,
            one@ == 1,
            sign@ == sign_spec(m as nat),
            coefficients.len() == i,
            first_duplicate(xs, m as nat).is_none(),
            first_zero_denominator(xs, i as nat).is_none(),
            forall|k: int|
                0 <= k < i ==> (#[trigger] coefficients[k])@ == lagrange_coefficient_spec(xs, k),
        decreases m - i,
    {
        let x_i = indices[i];
        let mut numerator = one;
        let mut denominator = one;
        let mut j: usize = 0;
        while j < m
            invariant
                j <= m,
                i < m,
                m == indices.len(),
                xs == values_of(indices@),
                x_i == indices[i as int],
                numerator@ == numerator_spec(xs, i as int, j as nat),
                denominator@ == denominator_spec(xs, i as int, j as nat),
            decreases m - j,
        {
            if i != j {
                let x_j = indices[j];
                numerator = numerator.mul(&x_j);
                let diff = x_i.sub(&x_j);
                denominator = denominator.mul(&diff);
            }
            j += 1;
        }
        match denominator.invert() {
            None => {
                proof {
                    assert(first_zero_denominator(xs, (i + 1) as nat) == Some(i as int));
                    lemma_first_zero_stays(xs, (i + 1) as nat, m as nat);
                }
                return Err(LagrangeError::ZeroDerivative { index: i + 1 });
            },
            Some(inverse) => {
                let coefficient = sign.mul(&numerator).mul(&inverse);
                coefficients.push(coefficient);
            },
        }
        i += 1;
    }
    assert(values_of(coefficients@) =~= Seq::new(
        xs.len(),
        |i: int| lagrange_coefficient_spec(xs, i),
    ));
    Ok(coefficients)
}

/// The factors `x - x_i` of the polynomial that vanishes at the points.
pub open spec fn linear_factors(xs: Seq<nat>) -> Seq<Seq<nat>> {
    Seq::new(xs.len(), |i: int| seq![field_neg(xs[i]), 1nat])
}

/// The polynomial `Q` that vanishes at the points: the product of the factors.
pub open spec fn vanishing_spec(xs: Seq<nat>) -> Seq<nat> {
    poly_product_spec(linear_factors(xs))
}

/// The constant term of `q`, or 1 for the empty sequence.
pub open spec fn constant_term_spec(q: Seq<nat>) -> nat {
    if q.len() > 0 {
        q[0]
    } else {
        1
    }
}

/// The number `x * Q'(x)` that the weight of the point `x` divides by.
pub open spec fn divisor_spec(xs: Seq<nat>, x: nat) -> nat {
    (x * poly_eval_spec(poly_derivative_spec(vanishing_spec(xs)), x)) % modulus()
}

/// The weight `-Q(0) / (x * Q'(x))` of the point `x`.
pub open spec fn weight_spec(xs: Seq<nat>, x: nat) -> nat {
    (field_neg(constant_term_spec(vanishing_spec(xs))) * field_inv(divisor_spec(xs, x)))
        % modulus()
}

/// The sum of the first `n` shares, each times its weight.
pub open spec fn weighted_sum_spec(shares: Seq<ShareData>, xs: Seq<nat>, n: nat) -> nat
    decreases n,
{
    if n == 0 {
        0
    } else {
        (weighted_sum_spec(shares, xs, (n - 1) as nat) + (shares[n - 1].share@ * weight_spec(
            xs,
            xs[n - 1],
        )) % modulus()) % modulus()
    }
}

/// The first position below `n` whose divisor is 0.
pub open spec fn first_zero_divisor(xs: Seq<nat>, n: nat) -> Option<int>
    decreases n,
{
    if n == 0 {
        None
    } else {
        match first_zero_divisor(xs, (n - 1) as nat) {
            Some(i) => Some(i),
            None => if divisor_spec(xs, xs[n - 1]) == 0 {
                Some(n - 1)
            } else {
                None
            },
        }
    }
}

/// The indices of the shares.
pub open spec fn share_points(shares: Seq<ShareData>) -> Seq<nat> {
    Seq::new(shares.len(), |i: int| shares[i].index as nat)
}

/// What reconstruction gives for the shares: an error for no shares, for an
/// index 0 and for a point whose divisor `x * Q'(x)` is 0, which in the field
/// happens exactly where `Q'(x)` is 0; else the weighted sum of the shares.
pub open spec fn recover_spec(shares: Seq<ShareData>) -> Result<nat, LagrangeError> {
    let xs = share_points(shares);
    if shares.len() == 0 {
        Err(LagrangeError::InsufficientShares { needed: 1, provided: 0 })
    } else if exists|i: int| 0 <= i < shares.len() && (#[trigger] shares[i]).index == 0 {
        Err(LagrangeError::InvalidShareIndex { index: 0 })
    } else {
        match first_zero_divisor(xs, xs.len()) {
            Some(i) => Err(LagrangeError::ZeroDerivative { index: shares[i].index }),
            None => Ok(weighted_sum_spec(shares, xs, shares.len())),
        }
    }
}

proof fn lemma_first_zero_divisor_stays(xs: Seq<nat>, m: nat, n: nat)
    requires
        m <= n,
        first_zero_divisor(xs, m).is_some(),
    ensures
        first_zero_divisor(xs, n) == first_zero_divisor(xs, m),
    decreases n - m,
{
    if m < n {
        lemma_first_zero_divisor_stays(xs, m, (n - 1) as nat);
    }
}

proof fn lemma_linear_factors_len(xs: Seq<nat>)
    ensures
        total_len(linear_factors(xs)) == 2 * xs.len(),
    decreases xs.len(),
{
    if xs.len() > 0 {
        lemma_linear_factors_len(xs.drop_last());
        assert(linear_factors(xs).drop_last() =~= linear_factors(xs.drop_last()));
    }
}

/// The secret that the shares determine, by weights computed from the
/// vanishing polynomial of their indices and its derivative.
pub fn recover_secret_fft(shares: &[ShareData]) -> (r: Result<Scalar, LagrangeError>)
    requires
        2 * shares.len() + 2 <= usize::MAX,
    ensures
        secret_agrees(r, recover_spec(shares@)),
{
    let ghost xs = share_points(shares@);
    let m = shares.len();
    if m == 0 {
        return Err(LagrangeError::InsufficientShares { needed: 1, provided: 0 });
    }
    let mut i: usize = 0;
    while i < m
        invariant
            i <= m,
            m == shares.len(),
            forall|k: int| 0 <= k < i ==> (#[trigger] shares[k]).index != 0,
        decreases m - i,
    {
        if shares[i].index == 0 {
            return Err(LagrangeError::InvalidShareIndex { index: shares[i].index });
        }
        i += 1;
    }
    let one = Scalar::one();
    let mut points: Vec<Scalar> = Vec::new();
    let mut polys: Vec<Vec<Scalar>> = Vec::new();
    let mut i: usize = 0;
    while i < m
        invariant
            i <= m,
            m == shares.len(),
            one@ == 1,
            xs == share_points(shares@),
            points.len() == i,
            polys.len() == i,
            values_of(points@) == xs.subrange(0, i as int),
            polys_of(polys@) == linear_factors(xs.subrange(0, i as int)),
        decreases m - i,
    {
        let x = Scalar::from_u64(shares[i].index as u64);
        let mut factor: Vec<Scalar> = Vec::new();
        factor.push(x.neg());
        factor.push(one);
        let ghost fv = values_of(factor@);
        let ghost before = polys_of(polys@);
        assert(fv =~= seq![field_neg(x@), 1nat]);
        points.push(x);
        polys.push(factor);
        proof {
            assert(values_of(points@) =~= xs.subrange(0, i + 1));
            let after = polys_of(polys@);
            let want = linear_factors(xs.subrange(0, i + 1));
            assert forall|k: int| 0 <= k < i + 1 implies after[k] == want[k] by {
                if k < i {
                    assert(after[k] == before[k]);
                    assert(want[k] == linear_factors(xs.subrange(0, i as int))[k]);
                } else {
                    assert(after[k] == fv);
                }
            }
            assert(after =~= want);
        }
        i += 1;
    }
    proof {
        assert(xs.subrange(0, m as int) =~= xs);
        lemma_linear_factors_len(xs);
    }
    let q_poly = poly_product(polys.as_slice());
    let q_0 = if q_poly.len() > 0 { q_poly[0] } else { one };
    let q_derivative = poly_derivative(q_poly.as_slice());
    let minus_q_0 = q_0.neg();
    let mut secret = Scalar::zero();
    let mut i: usize = 0;
    while i < m
        invariant
            i <= m,
            m == shares.len(),
            xs == share_points(shares@),
            xs.len() == m,
            values_of(points@) == xs,
            points.len() == m,
            values_of(q_poly@) == vanishing_spec(xs),
            values_of(q_derivative@) == poly_derivative_spec(vanishing_spec(xs)),
            minus_q_0@ == field_neg(constant_term_spec(vanishing_spec(xs))),
            forall|k: int| 0 <= k < m ==> (#[trigger] shares[k]).index != 0,
            first_zero_divisor(xs, i as nat).is_none(),
            secret@ == weighted_sum_spec(shares@, xs, i as nat),
        decreases m - i,
    {
        let x_i = points[i];
        assert(x_i@ == xs[i as int]) by {
            assert(values_of(points@)[i as int] == points[i as int]@);
        }
        let q_i = poly_evaluate(q_derivative.as_slice(), x_i);
        match x_i.mul(&q_i).invert() {
            None => {
                proof {
                    assert(first_zero_divisor(xs, (i + 1) as nat) == Some(i as int));
                    lemma_first_zero_divisor_stays(xs, (i + 1) as nat, m as nat);
                }
                return Err(LagrangeError::ZeroDerivative { index: shares[i].index });
            },
            Some(inverse) => {
                let lagrange_coeff = minus_q_0.mul(&inverse);
                secret = secret.add(&shares[i].share.mul(&lagrange_coeff));
            },
        }
        i += 1;
    }
    Ok(secret)
}

/// The secrets of several independent sets of shares.
pub fn recover_secrets_batch(shares_batch: &[Vec<ShareData>]) -> (r: Vec<
    Result<Scalar, LagrangeError>,
>)
    requires
        forall|i: int|
            0 <= i < shares_batch.len() ==> 2 * (#[trigger] shares_batch[i]).len() + 2
                <= usize::MAX,
    ensures
        r.len() == shares_batch.len(),
        forall|i: int|
            0 <= i < r.len() ==> secret_agrees(#[trigger] r[i], recover_spec(shares_batch[i]@)),
{
    let mut results: Vec<Result<Scalar, LagrangeError>> = Vec::new();
    let mut i: usize = 0;
    while i < shares_batch.len()
        invariant
            i <= shares_batch.len(),
            results.len() == i,
            forall|k: int|
                0 <= k < shares_batch.len() ==> 2 * (#[trigger] shares_batch[k]).len() + 2
                    <= usize::MAX,
            forall|k: int|
                0 <= k < i ==> secret_agrees(#[trigger] results[k], recover_spec(shares_batch[k]@)),
        decreases shares_batch.len() - i,
    {
        results.push(recover_secret_fft(shares_batch[i].as_slice()));
        i += 1;
    }
    results
}

} // verus!
