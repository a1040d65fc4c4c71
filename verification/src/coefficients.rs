//! Why the Lagrange coefficients in closed form are the weights that
//! reconstruction uses, so that the sum of the shares weighted with them is
//! the secret.

use vstd::prelude::*;
use crate::interpolation::{
    base_quotient, differences_invertible, distinct_points, indices_nonzero, int_coeff, int_value,
    ints, lemma_division_value, lemma_divisor, lemma_quotient_at_other, lemma_quotient_at_own,
    lemma_reconstruction, lemma_reshared_subset_reconstructs, lemma_root_value,
    lemma_roots_force_zero, lemma_vanishing, selected_from,
};
use crate::lagrange_fft::{
    constant_term_spec, denominator_spec, divisor_spec, earlier_equal, first_duplicate,
    first_zero_denominator, lagrange_coefficient_spec, lagrange_spec, numerator_spec, recover_spec,
    share_points, sign_spec, vanishing_spec, weight_spec, weighted_sum_spec, LagrangeError,
};
use crate::polynomial::{lemma_padded_evaluate, padded_spec, poly_eval_spec};
use crate::scalar::{
    congruent, field_inv, field_laws, field_neg, field_sub, field_sum, has_inverse, lemma_cancel,
    lemma_congruent_product, lemma_congruent_reduced, lemma_congruent_scaled, lemma_congruent_sum,
    lemma_field_inverse, lemma_modulus_large, lemma_small_not_zero, modulus,
};
use crate::sharing::{reshared, reshared_with, shares_of_polynomial, weighted_shares, ShareData};

verus! {

/// The polynomial `p` times `x - z`.
pub open spec fn times_linear(p: Seq<int>, z: int) -> Seq<int> {
    Seq::new(p.len() + 1, |k: int| int_coeff(p, k - 1) - z * int_coeff(p, k))
}

/// The product of the `x - x_j` with `j < n` and `j != i`, as a polynomial.
pub open spec fn others_poly(xs: Seq<nat>, i: int, n: nat) -> Seq<int>
    decreases n,
{
    if n == 0 {
        seq![1int]
    } else if n - 1 == i {
        others_poly(xs, i, (n - 1) as nat)
    } else {
        times_linear(others_poly(xs, i, (n - 1) as nat), xs[n - 1] as int)
    }
}

/// The product of the `y - x_j` with `j < n` and `j != i`.
pub open spec fn others_value(xs: Seq<nat>, i: int, y: int, n: nat) -> int
    decreases n,
{
    if n == 0 {
        1
    } else if n - 1 == i {
        others_value(xs, i, y, (n - 1) as nat)
    } else {
        others_value(xs, i, y, (n - 1) as nat) * (y - xs[n - 1])
    }
}

proof fn lemma_times_linear_value(p: Seq<int>, z: int, y: int)
    ensures
        int_value(times_linear(p, z), y) == (y - z) * int_value(p, y),
    decreases p.len(),
{
    let t = times_linear(p, z);
    if p.len() == 0 {
        assert(t[0] == 0 - z * 0);
        assert(z * 0 == 0 && (y - z) * 0 == 0) by (nonlinear_arith);
        assert(t.drop_first().len() == 0);
        assert(int_value(t.drop_first(), y) == 0);
        assert(y * 0 == 0) by (nonlinear_arith);
    } else {
        let tail = p.drop_first();
        let rest = Seq::new(p.len(), |k: int| p[k] - z * int_coeff(tail, k));
        let shifted = times_linear(tail, z);
        lemma_times_linear_value(tail, z, y);
        // t = [-z p0] ++ rest, and rest = [p0 ...] + shifted
        assert(t.drop_first() =~= rest) by {
            assert forall|k: int| 0 <= k < p.len() implies t.drop_first()[k] == rest[k] by {
                assert(t.drop_first()[k] == t[k + 1]);
                assert(int_coeff(p, k + 1) == int_coeff(tail, k));
            }
        }
        lemma_shifted_sum(p, tail, z, rest, shifted, y);
        let (vp, vt) = (int_value(p, y), int_value(tail, y));
        assert(t[0] == 0 - z * p[0]);
        assert((0 - z * p[0]) + y * (vp - z * vt) == (y - z) * vp) by (nonlinear_arith)
            requires
                vp == p[0] + y * vt,
        ;
    }
}

proof fn lemma_shifted_sum(
    p: Seq<int>,
    tail: Seq<int>,
    z: int,
    rest: Seq<int>,
    shifted: Seq<int>,
    y: int,
)
    requires
        p.len() >= 1,
        tail == p.drop_first(),
        rest.len() == p.len(),
        forall|k: int| 0 <= k < rest.len() ==> rest[k] == p[k] - z * int_coeff(tail, k),
    ensures
        int_value(rest, y) == int_value(p, y) - z * int_value(tail, y),
{
    let padded = Seq::new(p.len(), |k: int| int_coeff(tail, k));
    lemma_padded_value(tail, padded, y);
    lemma_difference_value(p, padded, z, rest, y);
}

proof fn lemma_padded_value(p: Seq<int>, padded: Seq<int>, y: int)
    requires
        padded.len() >= p.len(),
        forall|k: int| 0 <= k < padded.len() ==> padded[k] == int_coeff(p, k),
    ensures
        int_value(padded, y) == int_value(p, y),
    decreases padded.len(),
{
    if padded.len() > 0 {
        let rest = padded.drop_first();
        if p.len() == 0 {
            assert forall|k: int| 0 <= k < rest.len() implies rest[k] == int_coeff(p, k) by {
                assert(rest[k] == padded[k + 1]);
            }
            lemma_padded_value(p, rest, y);
            assert(y * 0 == 0) by (nonlinear_arith);
        } else {
            let tail = p.drop_first();
            assert forall|k: int| 0 <= k < rest.len() implies rest[k] == int_coeff(tail, k) by {
                assert(rest[k] == padded[k + 1]);
                assert(int_coeff(tail, k) == int_coeff(p, k + 1));
            }
            lemma_padded_value(tail, rest, y);
        }
    }
}

/// The value of `a - c b`, coefficient by coefficient.
pub proof fn lemma_difference_value(a: Seq<int>, b: Seq<int>, c: int, r: Seq<int>, y: int)
    requires
        a.len() == b.len(),
        r.len() == a.len(),
        forall|k: int| 0 <= k < r.len() ==> r[k] == a[k] - c * b[k],
    ensures
        int_value(r, y) == int_value(a, y) - c * int_value(b, y),
    decreases a.len(),
{
    if a.len() == 0 {
        assert(c * 0 == 0) by (nonlinear_arith);
    } else {
        let (at, bt, rt) = (a.drop_first(), b.drop_first(), r.drop_first());
        assert forall|k: int| 0 <= k < rt.len() implies rt[k] == at[k] - c * bt[k] by {
            assert(rt[k] == r[k + 1] && at[k] == a[k + 1] && bt[k] == b[k + 1]);
        }
        lemma_difference_value(at, bt, c, rt, y);
        let (va, vb) = (int_value(at, y), int_value(bt, y));
        assert(a[0] - c * b[0] + y * (va - c * vb) == a[0] + y * va - c * (b[0] + y * vb))
            by (nonlinear_arith);
    }
}

/// The polynomial of the other points has as many coefficients as there
/// are points, the leading one 1, and its value is the product of the
/// differences to the other points.
proof fn lemma_others_poly(xs: Seq<nat>, i: int, y: int, n: nat)
    requires
        n <= xs.len(),
    ensures
        others_poly(xs, i, n).len() == (if 0 <= i < n { n } else { n + 1 }),
        others_poly(xs, i, n).last() == 1,
        int_value(others_poly(xs, i, n), y) == others_value(xs, i, y, n),
    decreases n,
{
    if n == 0 {
        let one = seq![1int];
        assert(one.drop_first().len() == 0);
        assert(int_value(one.drop_first(), y) == 0);
        assert(y * 0 == 0) by (nonlinear_arith);
    } else {
        lemma_others_poly(xs, i, y, (n - 1) as nat);
        if n - 1 != i {
            let prev = others_poly(xs, i, (n - 1) as nat);
            let z = xs[n - 1] as int;
            lemma_times_linear_value(prev, z, y);
            assert(z * 0 == 0) by (nonlinear_arith);
            assert((y - z) * others_value(xs, i, y, (n - 1) as nat) == others_value(
                xs,
                i,
                y,
                (n - 1) as nat,
            ) * (y - z)) by (nonlinear_arith);
        }
    }
}

/// The product of the differences to the other points is 0 at every other
/// point.
proof fn lemma_others_value_zero(xs: Seq<nat>, i: int, j: int, n: nat)
    requires
        n <= xs.len(),
        0 <= j < n,
        j != i,
    ensures
        others_value(xs, i, xs[j] as int, n) == 0,
    decreases n,
{
    let y = xs[j] as int;
    if n - 1 == j {
        assert(others_value(xs, i, y, (n - 1) as nat) * 0 == 0) by (nonlinear_arith);
    } else {
        lemma_others_value_zero(xs, i, j, (n - 1) as nat);
        if n - 1 != i {
            assert(0 * (y - xs[n - 1]) == 0) by (nonlinear_arith);
        }
    }
}

proof fn lemma_trailing_zero(p: Seq<int>, y: int)
    requires
        p.len() >= 1,
        p.last() == 0,
    ensures
        int_value(p, y) == int_value(p.drop_last(), y),
    decreases p.len(),
{
    if p.len() == 1 {
        assert(p.drop_first().len() == 0 && p.drop_last().len() == 0);
        assert(int_value(p.drop_first(), y) == 0);
        assert(y * 0 == 0) by (nonlinear_arith);
    } else {
        let tail = p.drop_first();
        assert(tail.last() == p.last());
        lemma_trailing_zero(tail, y);
        assert(p.drop_last().drop_first() =~= tail.drop_last());
        assert(p.drop_last()[0] == p[0]);
    }
}

proof fn lemma_zero_coefficients(p: Seq<int>, y: int)
    requires
        forall|k: int| 0 <= k < p.len() ==> congruent(#[trigger] p[k], 0),
    ensures
        congruent(int_value(p, y), 0),
    decreases p.len(),
{
    if p.len() > 0 {
        let tail = p.drop_first();
        assert forall|k: int| 0 <= k < tail.len() implies congruent(#[trigger] tail[k], 0) by {
            assert(tail[k] == p[k + 1]);
        }
        lemma_zero_coefficients(tail, y);
        lemma_congruent_scaled(int_value(tail, y), 0, y);
        assert(y * 0 == 0) by (nonlinear_arith);
        lemma_congruent_sum(p[0], 0, y * int_value(tail, y), 0);
    }
}

/// The other points: all points but the `i`-th.
pub open spec fn other_points(xs: Seq<nat>, i: int) -> Seq<int> {
    Seq::new((xs.len() - 1) as nat, |k: int| if k < i { xs[k] as int } else { xs[k + 1] as int })
}

/// The quotient of the vanishing polynomial by `x - x_i` has, at every
/// point, the value of the product of the differences to the other points.
pub proof fn lemma_quotient_is_others(xs: Seq<nat>, i: int, y: int)
    requires
        field_laws(),
        distinct_points(xs),
        0 <= i < xs.len(),
    ensures
        congruent(int_value(base_quotient(xs, i), y), others_value(xs, i, y, xs.len())),
{
    let m = xs.len();
    let q = base_quotient(xs, i);
    let r = others_poly(xs, i, m);
    lemma_quotient_at_own(xs, i);
    lemma_others_poly(xs, i, y, m);
    let full = Seq::new(m, |k: int| q[k] - 1 * r[k]);
    lemma_difference_value(q, r, 1, full, y);
    assert(1 * int_value(r, y) == int_value(r, y)) by (nonlinear_arith);
    assert(full.last() == 0) by {
        assert(r.last() == r[m - 1]);
        assert(1 * r[m - 1] == r[m - 1]) by (nonlinear_arith);
    }
    lemma_trailing_zero(full, y);
    let d = full.drop_last();
    let roots = other_points(xs, i);
    assert forall|k: int| 0 <= k < roots.len() implies congruent(
        int_value(d, #[trigger] roots[k]),
        0,
    ) by {
        let j = if k < i { k } else { k + 1 };
        let x = xs[j] as int;
        assert(roots[k] == x);
        lemma_others_poly(xs, i, x, m);
        lemma_others_value_zero(xs, i, j, m);
        lemma_quotient_at_other(xs, i, j);
        lemma_difference_value(q, r, 1, full, x);
        assert(1 * int_value(r, x) == int_value(r, x)) by (nonlinear_arith);
        lemma_trailing_zero(full, x);
    }
    assert(differences_invertible(roots)) by {
        assert forall|a: int, b: int|
            0 <= a < roots.len() && 0 <= b < roots.len() && a != b implies has_inverse(
            #[trigger] roots[b] - #[trigger] roots[a],
        ) by {
            let ja = if a < i { a } else { a + 1 };
            let jb = if b < i { b } else { b + 1 };
            assert(xs[ja] != xs[jb]);
            lemma_small_not_zero(roots[b] - roots[a]);
        }
    }
    assert forall|k: int| 0 <= k < d.len() implies congruent(#[trigger] d[k], 0) by {
        lemma_roots_force_zero(d, roots, k);
    }
    lemma_zero_coefficients(d, y);
    lemma_congruent_sum(
        int_value(q, y) - int_value(r, y),
        0,
        int_value(r, y),
        int_value(r, y),
    );
}

proof fn lemma_denominator(xs: Seq<nat>, i: int, n: nat)
    requires
        0 <= i < xs.len(),
        n <= xs.len(),
    ensures
        denominator_spec(xs, i, n) < modulus(),
        congruent(denominator_spec(xs, i, n) as int, others_value(xs, i, xs[i] as int, n)),
    decreases n,
{
    lemma_modulus_large();
    let m = modulus() as int;
    if n > 0 {
        lemma_denominator(xs, i, (n - 1) as nat);
        if n - 1 != i {
            let before = denominator_spec(xs, i, (n - 1) as nat) as int;
            let diff = field_sub(xs[i], xs[n - 1]) as int;
            lemma_congruent_reduced(xs[i] - xs[n - 1]);
            vstd::arithmetic::div_mod::lemma_mod_bound(xs[i] - xs[n - 1], m);
            lemma_congruent_product(
                before,
                others_value(xs, i, xs[i] as int, (n - 1) as nat),
                diff,
                xs[i] - xs[n - 1],
            );
            lemma_congruent_reduced(before * diff);
            vstd::arithmetic::div_mod::lemma_mod_bound(before * diff, m);
        }
    }
}

/// The sign `(-1)^k`.
pub open spec fn alternating(k: int) -> int {
    if k % 2 == 0 {
        1
    } else {
        -1
    }
}

proof fn lemma_numerator(xs: Seq<nat>, i: int, n: nat)
    requires
        0 <= i < xs.len(),
        n <= xs.len(),
    ensures
        congruent(
            others_value(xs, i, 0, n),
            alternating(if i < n { n - 1 } else { n as int }) * numerator_spec(xs, i, n),
        ),
    decreases n,
{
    lemma_modulus_large();
    if n == 0 {
        assert(1 * 1 == 1) by (nonlinear_arith);
    } else {
        lemma_numerator(xs, i, (n - 1) as nat);
        if n - 1 != i {
            let count = if i < n - 1 { n - 2 } else { n - 1 };
            let sign = alternating(count);
            let next = alternating(count + 1);
            assert(next == -sign);
            let before = numerator_spec(xs, i, (n - 1) as nat) as int;
            let x = xs[n - 1] as int;
            let value = others_value(xs, i, 0, (n - 1) as nat);
            lemma_congruent_scaled(value, sign * before, 0 - x);
            assert((sign * before) * (0 - x) == next * (before * x)) by (nonlinear_arith)
                requires
                    next == -sign,
            ;
            lemma_congruent_reduced(before * x);
            lemma_congruent_scaled((before * x) % (modulus() as int), before * x, next);
        }
    }
}

/// A reduced number that is congruent to another reduced number is that number.
proof fn lemma_congruent_reduced_equal(a: nat, b: nat)
    requires
        a < modulus(),
        b < modulus(),
        congruent(a as int, b as int),
    ensures
        a == b,
{
    vstd::arithmetic::div_mod::lemma_small_mod(a, modulus());
    vstd::arithmetic::div_mod::lemma_small_mod(b, modulus());
}

/// In a field, the Lagrange coefficient in closed form is the weight that
/// reconstruction gives the point, and the product of differences that it
/// divides by is not 0.
pub proof fn lemma_coefficient_is_weight(xs: Seq<nat>, i: int)
    requires
        field_laws(),
        distinct_points(xs),
        0 <= i < xs.len(),
    ensures
        denominator_spec(xs, i, xs.len()) != 0,
        lagrange_coefficient_spec(xs, i) == weight_spec(xs, xs[i]),
{
    lemma_modulus_large();
    let l = modulus() as int;
    let m = xs.len();
    let x = xs[i] as int;
    let q = base_quotient(xs, i);
    let (v, z) = (int_value(q, x), int_value(q, 0));
    let den = denominator_spec(xs, i, m);
    lemma_quotient_at_own(xs, i);
    lemma_quotient_is_others(xs, i, x);
    lemma_quotient_is_others(xs, i, 0);
    lemma_denominator(xs, i, m);
    lemma_numerator(xs, i, m);
    assert(congruent(den as int, v));
    vstd::arithmetic::div_mod::lemma_small_mod(0, modulus());
    assert(den != 0);
    lemma_field_inverse(den);
    lemma_small_not_zero(den as int);
    assert(has_inverse(den as int));
    let inv_den = field_inv(den) as int;
    // the numerator with its sign is the value of the quotient at 0
    let sign = sign_spec(m) as int;
    let num = numerator_spec(xs, i, m) as int;
    assert(congruent(sign, alternating(m - 1))) by {
        if (m - 1) % 2 != 0 {
            lemma_congruent_reduced(-1);
        }
    }
    lemma_congruent_scaled(sign, alternating(m - 1), num);
    lemma_congruent_reduced(sign * num);
    let signed = (sign * num) % l;
    assert(congruent(signed, z));
    // the coefficient times the denominator
    let lambda = lagrange_coefficient_spec(xs, i) as int;
    lemma_congruent_reduced(signed * inv_den);
    lemma_congruent_scaled(signed, z, inv_den);
    assert(congruent(lambda, z * inv_den));
    lemma_congruent_scaled(lambda, z * inv_den, den as int);
    lemma_congruent_reduced(inv_den * den);
    lemma_congruent_scaled(inv_den * den, 1, z);
    assert((z * inv_den) * den == (inv_den * den) * z) by (nonlinear_arith);
    assert(1 * z == z) by (nonlinear_arith);
    assert(congruent(lambda * den, z));
    // the weight times the denominator
    lemma_divisor(xs, i);
    let d = divisor_spec(xs, xs[i]) as int;
    let inv_d = field_inv(divisor_spec(xs, xs[i])) as int;
    let q0 = constant_term_spec(vanishing_spec(xs)) as int;
    let big = ints(vanishing_spec(xs));
    lemma_vanishing(xs, i);
    lemma_root_value(xs, i);
    lemma_division_value(big, x, 0);
    assert(int_value(big, 0) == big[0] + 0 * int_value(big.drop_first(), 0));
    assert(0 * int_value(big.drop_first(), 0) == 0) by (nonlinear_arith);
    assert(x * z == int_value(big, x) - q0) by (nonlinear_arith)
        requires
            q0 == int_value(big, x) + (0 - x) * z,
    ;
    lemma_congruent_sum(int_value(big, x), 0, q0, q0);
    lemma_congruent_reduced(-q0);
    let neg = field_neg(q0 as nat) as int;
    assert(congruent(neg, x * z));
    let w = weight_spec(xs, xs[i]) as int;
    lemma_congruent_reduced(neg * inv_d);
    lemma_congruent_scaled(neg, x * z, inv_d);
    assert(congruent(w, (x * z) * inv_d));
    lemma_congruent_scaled(w, (x * z) * inv_d, den as int);
    lemma_congruent_scaled(den as int, v, x);
    assert(congruent(x * den, d));
    lemma_congruent_scaled(x * den, d, inv_d);
    lemma_congruent_reduced(inv_d * d);
    assert(congruent(inv_d * (x * den), 1));
    lemma_congruent_scaled(inv_d * (x * den), 1, z);
    assert(((x * z) * inv_d) * den == (inv_d * (x * den)) * z) by (nonlinear_arith);
    assert(congruent(w * den, z));
    // both are the same
    lemma_congruent_sum(w * den, z, lambda * den, z);
    assert(den * (w - lambda) == w * den - lambda * den) by (nonlinear_arith);
    lemma_cancel(den as int, w - lambda);
    lemma_congruent_sum(w - lambda, 0, lambda, lambda);
    vstd::arithmetic::div_mod::lemma_mod_bound(signed * inv_den, l);
    vstd::arithmetic::div_mod::lemma_mod_bound(neg * inv_d, l);
    lemma_congruent_reduced_equal(w as nat, lambda as nat);
}

proof fn lemma_no_earlier_equal(xs: Seq<nat>, i: int, k: nat)
    requires
        distinct_points(xs),
        0 <= i < xs.len(),
        k <= i,
    ensures
        earlier_equal(xs, i, k).is_none(),
    decreases k,
{
    if k > 0 {
        lemma_no_earlier_equal(xs, i, (k - 1) as nat);
        assert(xs[k - 1] != xs[i]);
    }
}

proof fn lemma_no_duplicate(xs: Seq<nat>, n: nat)
    requires
        distinct_points(xs),
        n <= xs.len(),
    ensures
        first_duplicate(xs, n).is_none(),
    decreases n,
{
    if n > 0 {
        lemma_no_duplicate(xs, (n - 1) as nat);
        lemma_no_earlier_equal(xs, n - 1, (n - 1) as nat);
    }
}

proof fn lemma_no_zero_denominator(xs: Seq<nat>, n: nat)
    requires
        field_laws(),
        distinct_points(xs),
        n <= xs.len(),
    ensures
        first_zero_denominator(xs, n).is_none(),
    decreases n,
{
    if n > 0 {
        lemma_no_zero_denominator(xs, (n - 1) as nat);
        lemma_coefficient_is_weight(xs, n - 1);
    }
}

/// The Lagrange coefficients of the points, in closed form.
pub open spec fn coefficients_spec(xs: Seq<nat>) -> Seq<nat> {
    Seq::new(xs.len(), |i: int| lagrange_coefficient_spec(xs, i))
}

/// In a field, the Lagrange coefficients of points that are not 0 and
/// pairwise different exist.
pub proof fn lemma_coefficients_exist(xs: Seq<nat>)
    requires
        field_laws(),
        distinct_points(xs),
        xs.len() >= 1,
    ensures
        lagrange_spec(xs) == Ok::<Seq<nat>, LagrangeError>(coefficients_spec(xs)),
{
    lemma_no_duplicate(xs, xs.len());
    lemma_no_zero_denominator(xs, xs.len());
}

proof fn lemma_weighted_sums_agree(shares: Seq<ShareData>, n: nat)
    requires
        field_laws(),
        distinct_points(share_points(shares)),
        n <= shares.len(),
    ensures
        field_sum(
            weighted_shares(shares, coefficients_spec(share_points(shares))).subrange(0, n as int),
        ) == weighted_sum_spec(shares, share_points(shares), n),
    decreases n,
{
    let xs = share_points(shares);
    let all = weighted_shares(shares, coefficients_spec(xs));
    let part = all.subrange(0, n as int);
    if n > 0 {
        lemma_weighted_sums_agree(shares, (n - 1) as nat);
        lemma_coefficient_is_weight(xs, n - 1);
        assert(part.drop_last() =~= all.subrange(0, n - 1));
        assert(part.last() == all[n - 1]);
    }
}

/// The defining property of the Lagrange coefficients: in a field, the
/// values of a polynomial at as many points as it has coefficients or more,
/// the points not 0 and pairwise different, weighted with the coefficients
/// of the points, sum to the polynomial's constant term.
pub proof fn lemma_coefficients_give_constant_term(shares: Seq<ShareData>, poly: Seq<nat>)
    requires
        field_laws(),
        1 <= poly.len() <= shares.len(),
        indices_nonzero(shares),
        selected_from(shares, shares),
        shares_of_polynomial(shares, poly),
    ensures
        distinct_points(share_points(shares)),
        lagrange_spec(share_points(shares)) == Ok::<Seq<nat>, LagrangeError>(
            coefficients_spec(share_points(shares)),
        ),
        field_sum(weighted_shares(shares, coefficients_spec(share_points(shares)))) == poly[0]
            % modulus(),
        recover_spec(shares) == Ok::<nat, LagrangeError>(poly[0] % modulus()),
{
    lemma_modulus_large();
    let xs = share_points(shares);
    assert(distinct_points(xs)) by {
        assert forall|i: int| 0 <= i < xs.len() implies 0 < #[trigger] xs[i] < modulus() by {
            assert(shares[i].index != 0);
        }
        assert forall|i: int, j: int|
            0 <= i < xs.len() && 0 <= j < xs.len() && i != j implies #[trigger] xs[i]
            != #[trigger] xs[j] by {
            assert(shares[i].index != shares[j].index);
        }
    }
    lemma_coefficients_exist(xs);
    lemma_weighted_sums_agree(shares, shares.len());
    let all = weighted_shares(shares, coefficients_spec(xs));
    assert(all.subrange(0, shares.len() as int) =~= all);
    let wide = padded_spec(poly, shares.len());
    assert forall|i: int| 0 <= i < shares.len() implies (#[trigger] shares[i]).share@
        == poly_eval_spec(wide, shares[i].index as nat) by {
        lemma_padded_evaluate(poly, shares.len(), shares[i].index as nat);
    }
    lemma_reconstruction(shares, wide);
}

/// Threshold adjustment preserves the secret: in a field, where the old
/// shares are at least as many as their sharing polynomial has
/// coefficients, with indices that are not 0 and pairwise different, the
/// coefficients exist, and any selection of at least as many new shares as
/// the new threshold says reconstructs what the old shares reconstruct, the
/// constant term of the old sharing polynomial.
pub proof fn lemma_reshare_preserves_secret(
    existing: Seq<ShareData>,
    poly: Seq<nat>,
    new_threshold: usize,
    n: usize,
    shares: Seq<ShareData>,
    chosen: Seq<ShareData>,
)
    requires
        field_laws(),
        1 <= poly.len() <= existing.len(),
        indices_nonzero(existing),
        selected_from(existing, existing),
        shares_of_polynomial(existing, poly),
        new_threshold >= 1,
        reshared_with(
            existing,
            coefficients_spec(share_points(existing)),
            new_threshold,
            n,
            shares,
        ),
        selected_from(chosen, shares),
        chosen.len() >= new_threshold,
    ensures
        lagrange_spec(share_points(existing)) == Ok::<Seq<nat>, LagrangeError>(
            coefficients_spec(share_points(existing)),
        ),
        recover_spec(existing) == Ok::<nat, LagrangeError>(poly[0] % modulus()),
        recover_spec(chosen) == recover_spec(existing),
{
    lemma_coefficients_give_constant_term(existing, poly);
    lemma_reshared_subset_reconstructs(
        existing,
        coefficients_spec(share_points(existing)),
        new_threshold,
        n,
        shares,
        chosen,
    );
}

/// In a field, resharing the shares held for a secret succeeds, and any
/// selection of at least `new_threshold` of the new shares reconstructs the
/// secret.
pub proof fn lemma_reshared_shares_reconstruct(
    existing: Seq<ShareData>,
    poly: Seq<nat>,
    new_threshold: usize,
    n: usize,
    outcome: Result<Vec<ShareData>, LagrangeError>,
    chosen: Seq<ShareData>,
)
    requires
        field_laws(),
        1 <= poly.len() <= existing.len(),
        poly[0] < modulus(),
        indices_nonzero(existing),
        selected_from(existing, existing),
        shares_of_polynomial(existing, poly),
        new_threshold >= 1,
        reshared(existing, new_threshold, n, outcome),
        outcome.is_ok() ==> selected_from(chosen, outcome.unwrap()@),
        chosen.len() >= new_threshold,
    ensures
        outcome.is_ok(),
        recover_spec(chosen) == Ok::<nat, LagrangeError>(poly[0]),
{
    lemma_coefficients_give_constant_term(existing, poly);
    lemma_reshare_preserves_secret(
        existing,
        poly,
        new_threshold,
        n,
        outcome.unwrap()@,
        chosen,
    );
    vstd::arithmetic::div_mod::lemma_small_mod(poly[0], modulus());
}

} // verus!
