//! Why reconstruction gives the secret: a polynomial with as many roots as
//! coefficients vanishes, so the weighted sum of the shares is the value at
//! zero of the polynomial through them.

use vstd::prelude::*;
use crate::lagrange_fft::{
    constant_term_spec, divisor_spec, first_zero_divisor, linear_factors, recover_spec,
    share_points, vanishing_spec, weight_spec, weighted_sum_spec, LagrangeError,
};
use crate::polynomial::{
    coeff, conv_partial, exact_value, lemma_conv_outside, lemma_eval_is_reduced_value,
    lemma_mul_evaluate_compatible, lemma_padded_evaluate, lemma_value_of_congruent, padded_spec,
    poly_add_spec, poly_derivative_spec, poly_eval_spec, poly_mul_spec, poly_product_spec,
};
use crate::scalar::{
    congruent, field_inv, field_laws, field_neg, field_sum, has_inverse, is_inverse, lemma_cancel,
    lemma_congruent_reduced, lemma_congruent_scaled, lemma_congruent_sum, lemma_field_inverse,
    lemma_modulus_large, lemma_small_not_zero, modulus,
};
use crate::sharing::{
    all_of_length, constant_terms, contributions_with, lemma_contributions_on_polynomial,
    lemma_refresh_keeps_constant_term, numbered_and_consistent, poly_sum_spec, refreshed_by,
    reshared_with, shares_of_contributions, shares_of_polynomial, weighted_shares, ShareData,
};

verus! {

/// The value at `y` of a polynomial with integer coefficients.
pub open spec fn int_value(p: Seq<int>, y: int) -> int
    decreases p.len(),
{
    if p.len() == 0 {
        0
    } else {
        p[0] + y * int_value(p.drop_first(), y)
    }
}

/// The coefficient of `x^k`, which is 0 beyond the sequence.
pub open spec fn int_coeff(p: Seq<int>, k: int) -> int {
    if 0 <= k < p.len() {
        p[k]
    } else {
        0
    }
}

/// The quotient of `p` by `x - r`.
pub open spec fn quotient(p: Seq<int>, r: int) -> Seq<int>
    decreases p.len(),
{
    if p.len() <= 1 {
        Seq::empty()
    } else {
        seq![int_value(p.drop_first(), r)] + quotient(p.drop_first(), r)
    }
}

/// The quotient has one coefficient less.
pub proof fn lemma_quotient_len(p: Seq<int>, r: int)
    ensures
        quotient(p, r).len() == if p.len() == 0 { 0 } else { p.len() - 1 },
    decreases p.len(),
{
    if p.len() > 1 {
        lemma_quotient_len(p.drop_first(), r);
    }
}

/// Division by `x - r` with remainder: `p(y) = p(r) + (y - r) q(y)`.
pub proof fn lemma_division_value(p: Seq<int>, r: int, y: int)
    ensures
        int_value(p, y) == int_value(p, r) + (y - r) * int_value(quotient(p, r), y),
    decreases p.len(),
{
    if p.len() == 0 {
        assert((y - r) * 0 == 0) by (nonlinear_arith);
    } else if p.len() == 1 {
        assert(p.drop_first().len() == 0);
        assert(int_value(p.drop_first(), y) == 0 && int_value(p.drop_first(), r) == 0);
        assert((y - r) * 0 == 0 && y * 0 == 0 && r * 0 == 0) by (nonlinear_arith);
    } else {
        let tail = p.drop_first();
        let q = quotient(p, r);
        lemma_division_value(tail, r, y);
        assert(q.drop_first() =~= quotient(tail, r));
        let (a, b, e) = (int_value(tail, y), int_value(tail, r), int_value(quotient(tail, r), y));
        assert(int_value(q, y) == b + y * e);
        assert(y * a - r * b == (y - r) * (b + y * e)) by (nonlinear_arith)
            requires
                a == b + (y - r) * e,
        ;
    }
}

/// Division by `x - r`, coefficient by coefficient.
pub proof fn lemma_division_coefficients(p: Seq<int>, r: int, k: int)
    requires
        0 <= k < p.len(),
    ensures
        p[k] == (if k == 0 {
            int_value(p, r)
        } else {
            int_coeff(quotient(p, r), k - 1)
        }) - r * int_coeff(quotient(p, r), k),
    decreases p.len(),
{
    let tail = p.drop_first();
    let q = quotient(p, r);
    lemma_quotient_len(p, r);
    if p.len() == 1 {
        assert(int_value(tail, r) == 0);
        assert(r * 0 == 0) by (nonlinear_arith);
    } else {
        assert(q.drop_first() =~= quotient(tail, r));
        assert(q[0] == int_value(tail, r));
        if k >= 1 {
            lemma_division_coefficients(tail, r, k - 1);
            lemma_quotient_len(tail, r);
            assert(p[k] == tail[k - 1]);
            assert(int_coeff(quotient(tail, r), k - 1) == int_coeff(q, k));
            if k >= 2 {
                assert(int_coeff(quotient(tail, r), k - 2) == int_coeff(q, k - 1));
            }
        }
    }
}

/// The differences between any two of the numbers have inverses in the field.
pub open spec fn differences_invertible(roots: Seq<int>) -> bool {
    forall|i: int, j: int|
        0 <= i < roots.len() && 0 <= j < roots.len() && i != j ==> has_inverse(
            #[trigger] roots[j] - #[trigger] roots[i],
        )
}

/// A polynomial with at least as many roots as coefficients, the roots
/// apart by invertible differences, has only coefficients that are 0 in the
/// field.
pub proof fn lemma_roots_force_zero(p: Seq<int>, roots: Seq<int>, k: int)
    requires
        p.len() <= roots.len(),
        differences_invertible(roots),
        forall|i: int| 0 <= i < roots.len() ==> congruent(int_value(p, #[trigger] roots[i]), 0),
        0 <= k < p.len(),
    ensures
        congruent(p[k], 0),
    decreases roots.len(),
{
    lemma_modulus_large();
    let r = roots[0];
    let q = quotient(p, r);
    let rest = roots.drop_first();
    lemma_quotient_len(p, r);
    assert forall|i: int| 0 <= i < rest.len() implies congruent(
        int_value(q, #[trigger] rest[i]),
        0,
    ) by {
        let x = rest[i];
        assert(x == roots[i + 1]);
        lemma_division_value(p, r, x);
        assert(has_inverse(roots[i + 1] - roots[0]));
        lemma_congruent_sum(int_value(p, x), 0, int_value(p, r), 0);
        lemma_cancel(x - r, int_value(q, x));
    }
    assert forall|i: int, j: int|
        0 <= i < rest.len() && 0 <= j < rest.len() && i != j implies has_inverse(
        #[trigger] rest[j] - #[trigger] rest[i],
    ) by {
        assert(rest[i] == roots[i + 1] && rest[j] == roots[j + 1]);
        assert(has_inverse(roots[j + 1] - roots[i + 1]));
    }
    lemma_division_coefficients(p, r, k);
    let lower = if k == 0 { int_value(p, r) } else { int_coeff(q, k - 1) };
    if k >= 1 {
        lemma_roots_force_zero(q, rest, k - 1);
    }
    let upper = int_coeff(q, k);
    if k < q.len() {
        lemma_roots_force_zero(q, rest, k);
    }
    lemma_congruent_scaled(upper, 0, r);
    assert(r * 0 == 0) by (nonlinear_arith);
    lemma_congruent_sum(lower, 0, r * upper, 0);
}

/// The sum of `(k + c) p[k] y^k` over the coefficients of `p`.
pub open spec fn slope_value(p: Seq<int>, y: int, c: int) -> int
    decreases p.len(),
{
    if p.len() == 0 {
        0
    } else {
        c * p[0] + y * slope_value(p.drop_first(), y, c + 1)
    }
}

proof fn lemma_slope_value(p: Seq<int>, y: int, c: int)
    requires
        p.len() >= 1,
    ensures
        slope_value(p, y, c) == c * int_value(p, y) + y * slope_value(p.drop_first(), y, 1),
    decreases p.len(),
{
    let tail = p.drop_first();
    if tail.len() == 0 {
        assert(slope_value(tail, y, c + 1) == 0 && slope_value(tail, y, 1) == 0);
        assert(int_value(tail, y) == 0);
        assert(c * (p[0] + y * 0) == c * p[0]) by (nonlinear_arith);
    } else {
        lemma_slope_value(tail, y, c + 1);
        lemma_slope_value(tail, y, 1);
        let (v, s) = (int_value(tail, y), slope_value(tail.drop_first(), y, 1));
        assert(c * p[0] + y * ((c + 1) * v + y * s) == c * (p[0] + y * v) + y * (1 * v + y * s))
            by (nonlinear_arith);
    }
}

/// The derivative of `p` at `r` is the value at `r` of the quotient of `p`
/// by `x - r`.
pub proof fn lemma_slope_is_quotient_value(p: Seq<int>, r: int)
    requires
        p.len() >= 1,
    ensures
        slope_value(p.drop_first(), r, 1) == int_value(quotient(p, r), r),
    decreases p.len(),
{
    let tail = p.drop_first();
    if tail.len() == 0 {
        assert(quotient(p, r).len() == 0);
    } else {
        lemma_slope_is_quotient_value(tail, r);
        lemma_slope_value(tail, r, 1);
        let q = quotient(p, r);
        assert(q.drop_first() =~= quotient(tail, r));
        assert(q[0] == int_value(tail, r));
    }
}

/// The coefficients as integers.
pub open spec fn ints(p: Seq<nat>) -> Seq<int> {
    Seq::new(p.len(), |i: int| p[i] as int)
}

proof fn lemma_exact_is_int_value(p: Seq<nat>, x: nat)
    ensures
        exact_value(p, x) == int_value(ints(p), x as int),
    decreases p.len(),
{
    if p.len() > 0 {
        lemma_exact_is_int_value(p.drop_first(), x);
        assert(ints(p).drop_first() =~= ints(p.drop_first()));
    }
}

/// The value in the field is congruent to the value over the integers.
pub proof fn lemma_eval_congruent(p: Seq<nat>, x: nat)
    ensures
        congruent(poly_eval_spec(p, x) as int, int_value(ints(p), x as int)),
{
    lemma_modulus_large();
    lemma_eval_is_reduced_value(p, x);
    lemma_exact_is_int_value(p, x);
    lemma_congruent_reduced(int_value(ints(p), x as int));
}

proof fn lemma_weighted_value(t: Seq<int>, w: Seq<int>, y: int, c: int)
    requires
        w.len() == t.len(),
        forall|i: int| 0 <= i < t.len() ==> w[i] == (i + c) * t[i],
    ensures
        int_value(w, y) == slope_value(t, y, c),
    decreases t.len(),
{
    if t.len() > 0 {
        let (tt, wt) = (t.drop_first(), w.drop_first());
        assert forall|i: int| 0 <= i < tt.len() implies wt[i] == (i + (c + 1)) * tt[i] by {
            assert(wt[i] == w[i + 1] && tt[i] == t[i + 1]);
        }
        lemma_weighted_value(tt, wt, y, c + 1);
    }
}

/// The value of the derivative at `r` is congruent to the value at `r` of
/// the quotient by `x - r`.
pub proof fn lemma_derivative_value(p: Seq<nat>, r: nat)
    requires
        p.len() >= 2,
    ensures
        congruent(
            poly_eval_spec(poly_derivative_spec(p), r) as int,
            int_value(quotient(ints(p), r as int), r as int),
        ),
{
    lemma_modulus_large();
    let d = poly_derivative_spec(p);
    let exact = Seq::new((p.len() - 1) as nat, |i: int| ((i + 1) * p[i + 1]) as nat);
    assert forall|i: int| 0 <= i < d.len() implies d[i] % modulus() == exact[i] % modulus() by {
        vstd::arithmetic::div_mod::lemma_mod_twice(exact[i] as int, modulus() as int);
    }
    lemma_value_of_congruent(d, exact, r);
    lemma_eval_is_reduced_value(d, r);
    lemma_exact_is_int_value(exact, r);
    let tail = ints(p).drop_first();
    assert forall|i: int| 0 <= i < tail.len() implies ints(exact)[i] == (i + 1) * tail[i] by {
        assert(tail[i] == p[i + 1] as int);
        assert((i + 1) * p[i + 1] >= 0) by (nonlinear_arith)
            requires
                i >= 0,
                p[i + 1] >= 0,
        ;
    }
    lemma_weighted_value(tail, ints(exact), r as int, 1);
    lemma_slope_is_quotient_value(ints(p), r as int);
    lemma_congruent_reduced(int_value(quotient(ints(p), r as int), r as int));
}

/// A product of polynomials with two coefficients each has one coefficient
/// more than there are factors.
pub proof fn lemma_linear_product_len(polys: Seq<Seq<nat>>)
    requires
        forall|i: int| 0 <= i < polys.len() ==> (#[trigger] polys[i]).len() == 2,
    ensures
        poly_product_spec(polys).len() == polys.len() + 1,
    decreases polys.len(),
{
    if polys.len() >= 2 {
        let mid = (polys.len() / 2) as int;
        lemma_linear_product_len(polys.subrange(0, mid));
        lemma_linear_product_len(polys.subrange(mid, polys.len() as int));
    }
}

/// A product vanishes where one of its factors does.
pub proof fn lemma_product_root(polys: Seq<Seq<nat>>, i: int, y: nat)
    requires
        0 <= i < polys.len(),
        poly_eval_spec(polys[i], y) == 0,
    ensures
        poly_eval_spec(poly_product_spec(polys), y) == 0,
    decreases polys.len(),
{
    lemma_modulus_large();
    if polys.len() >= 2 {
        let mid = (polys.len() / 2) as int;
        let (left, right) = (polys.subrange(0, mid), polys.subrange(mid, polys.len() as int));
        let (pl, pr) = (poly_product_spec(left), poly_product_spec(right));
        lemma_mul_evaluate_compatible(pl, pr, y);
        if i < mid {
            assert(left[i] == polys[i]);
            lemma_product_root(left, i, y);
            assert(0 * poly_eval_spec(pr, y) == 0) by (nonlinear_arith);
        } else {
            assert(right[i - mid] == polys[i]);
            lemma_product_root(right, i - mid, y);
            assert(poly_eval_spec(pl, y) * 0 == 0) by (nonlinear_arith);
        }
        vstd::arithmetic::div_mod::lemma_small_mod(0, modulus());
    }
}

/// A product of polynomials with two coefficients each, the upper one 1, has
/// the leading coefficient 1.
pub proof fn lemma_linear_product_monic(polys: Seq<Seq<nat>>)
    requires
        forall|i: int|
            0 <= i < polys.len() ==> (#[trigger] polys[i]).len() == 2 && polys[i][1] == 1,
    ensures
        poly_product_spec(polys).len() == polys.len() + 1,
        poly_product_spec(polys)[polys.len() as int] == 1,
    decreases polys.len(),
{
    lemma_modulus_large();
    lemma_linear_product_len(polys);
    if polys.len() >= 2 {
        let mid = (polys.len() / 2) as int;
        let (left, right) = (polys.subrange(0, mid), polys.subrange(mid, polys.len() as int));
        let (a, b) = (poly_product_spec(left), poly_product_spec(right));
        lemma_linear_product_monic(left);
        lemma_linear_product_monic(right);
        let (l, r) = (left.len() as int, right.len() as int);
        lemma_conv_outside(a, b, l + r, l as nat);
        assert(conv_partial(a, b, l + r, (l + 1) as nat) == conv_partial(a, b, l + r, l as nat)
            + a[l] * coeff(b, r));
        assert(1 * 1 == 1) by (nonlinear_arith);
        vstd::arithmetic::div_mod::lemma_small_mod(1, modulus());
        assert(poly_mul_spec(a, b)[l + r] == conv_partial(a, b, l + r, a.len()) % modulus());
    }
}

/// The vanishing polynomial of `m` points has `m + 1` coefficients, the
/// leading one 1, and vanishes at each of the points.
pub proof fn lemma_vanishing(xs: Seq<nat>, i: int)
    requires
        0 <= i < xs.len(),
    ensures
        vanishing_spec(xs).len() == xs.len() + 1,
        vanishing_spec(xs)[xs.len() as int] == 1,
        poly_eval_spec(vanishing_spec(xs), xs[i]) == 0,
{
    lemma_modulus_large();
    let m = modulus() as int;
    let factors = linear_factors(xs);
    lemma_linear_product_monic(factors);
    let f = factors[i];
    let x = xs[i];
    assert(f =~= seq![field_neg(x), 1nat]);
    let tail = f.drop_first();
    assert(tail =~= seq![1nat]);
    assert(tail.drop_first().len() == 0);
    assert(poly_eval_spec(tail.drop_first(), x) == 0);
    assert(0 * x == 0) by (nonlinear_arith);
    vstd::arithmetic::div_mod::lemma_small_mod(1, modulus());
    assert(poly_eval_spec(tail, x) == 1);
    assert(1 * x == x) by (nonlinear_arith);
    vstd::arithmetic::div_mod::lemma_add_mod_noop_right(x as int, -(x as int), m);
    vstd::arithmetic::div_mod::lemma_small_mod(0, modulus());
    assert(poly_eval_spec(f, x) == 0);
    lemma_product_root(factors, i, x);
}

/// The points as integers.
pub open spec fn int_points(xs: Seq<nat>) -> Seq<int> {
    Seq::new(xs.len(), |i: int| xs[i] as int)
}

/// The points are reduced, not 0 and pairwise different.
pub open spec fn distinct_points(xs: Seq<nat>) -> bool {
    &&& forall|i: int| 0 <= i < xs.len() ==> 0 < #[trigger] xs[i] < modulus()
    &&& forall|i: int, j: int|
        0 <= i < xs.len() && 0 <= j < xs.len() && i != j ==> #[trigger] xs[i] != #[trigger] xs[j]
}

/// The quotient of the vanishing polynomial by `x - x_i`.
pub open spec fn base_quotient(xs: Seq<nat>, i: int) -> Seq<int> {
    quotient(ints(vanishing_spec(xs)), xs[i] as int)
}

/// The factor that the `i`-th quotient enters the interpolating polynomial with.
pub open spec fn scale(xs: Seq<nat>, ys: Seq<nat>, i: int) -> int {
    (ys[i] as int) * (field_inv(divisor_spec(xs, xs[i])) as int) * (xs[i] as int)
}

/// The value at `y` of the sum of the first `n` scaled quotients.
pub open spec fn term_sum(xs: Seq<nat>, ys: Seq<nat>, y: int, n: nat) -> int
    decreases n,
{
    if n == 0 {
        0
    } else {
        term_sum(xs, ys, y, (n - 1) as nat) + scale(xs, ys, n - 1) * int_value(
            base_quotient(xs, n - 1),
            y,
        )
    }
}

/// `f` less the first `n` scaled quotients.
pub open spec fn remainder(f: Seq<int>, xs: Seq<nat>, ys: Seq<nat>, n: nat) -> Seq<int>
    decreases n,
{
    if n == 0 {
        f
    } else {
        Seq::new(
            f.len(),
            |k: int|
                remainder(f, xs, ys, (n - 1) as nat)[k] - scale(xs, ys, n - 1) * int_coeff(
                    base_quotient(xs, n - 1),
                    k,
                ),
        )
    }
}

pub proof fn lemma_differences(xs: Seq<nat>)
    requires
        field_laws(),
        distinct_points(xs),
    ensures
        differences_invertible(int_points(xs)),
{
    let roots = int_points(xs);
    assert forall|i: int, j: int|
        0 <= i < roots.len() && 0 <= j < roots.len() && i != j implies has_inverse(
        #[trigger] roots[j] - #[trigger] roots[i],
    ) by {
        assert(xs[i] != xs[j]);
        lemma_small_not_zero(roots[j] - roots[i]);
    }
}

pub proof fn lemma_root_value(xs: Seq<nat>, i: int)
    requires
        0 <= i < xs.len(),
    ensures
        congruent(int_value(ints(vanishing_spec(xs)), xs[i] as int), 0),
{
    lemma_vanishing(xs, i);
    lemma_eval_congruent(vanishing_spec(xs), xs[i]);
}

pub proof fn lemma_quotient_at_other(xs: Seq<nat>, i: int, j: int)
    requires
        field_laws(),
        distinct_points(xs),
        0 <= i < xs.len(),
        0 <= j < xs.len(),
        i != j,
    ensures
        congruent(int_value(base_quotient(xs, i), xs[j] as int), 0),
{
    let q = ints(vanishing_spec(xs));
    let (xi, xj) = (xs[i] as int, xs[j] as int);
    lemma_root_value(xs, i);
    lemma_root_value(xs, j);
    lemma_division_value(q, xi, xj);
    lemma_congruent_sum(int_value(q, xj), 0, int_value(q, xi), 0);
    lemma_differences(xs);
    assert(has_inverse(int_points(xs)[j] - int_points(xs)[i]));
    lemma_cancel(xj - xi, int_value(base_quotient(xs, i), xj));
}

pub proof fn lemma_quotient_at_own(xs: Seq<nat>, i: int)
    requires
        field_laws(),
        distinct_points(xs),
        0 <= i < xs.len(),
    ensures
        !congruent(int_value(base_quotient(xs, i), xs[i] as int), 0),
        base_quotient(xs, i).len() == xs.len(),
        base_quotient(xs, i)[xs.len() - 1] == 1,
{
    lemma_modulus_large();
    let m = xs.len() as int;
    let big = ints(vanishing_spec(xs));
    let q = base_quotient(xs, i);
    let roots = int_points(xs);
    lemma_vanishing(xs, i);
    lemma_quotient_len(big, xs[i] as int);
    lemma_division_coefficients(big, xs[i] as int, m);
    assert((xs[i] as int) * 0 == 0) by (nonlinear_arith);
    assert(q[m - 1] == 1);
    if congruent(int_value(q, xs[i] as int), 0) {
        assert forall|j: int| 0 <= j < roots.len() implies congruent(
            int_value(q, #[trigger] roots[j]),
            0,
        ) by {
            if j != i {
                lemma_quotient_at_other(xs, i, j);
            }
        }
        lemma_differences(xs);
        lemma_roots_force_zero(q, roots, m - 1);
        vstd::arithmetic::div_mod::lemma_small_mod(1, modulus());
        vstd::arithmetic::div_mod::lemma_small_mod(0, modulus());
        assert(false);
    }
}

/// In a field, the divisor of every point has an inverse, and it is
/// congruent to the point times the value of its quotient at the point.
pub proof fn lemma_divisor(xs: Seq<nat>, i: int)
    requires
        field_laws(),
        distinct_points(xs),
        0 <= i < xs.len(),
    ensures
        divisor_spec(xs, xs[i]) != 0,
        is_inverse(field_inv(divisor_spec(xs, xs[i])), divisor_spec(xs, xs[i])),
        congruent(
            divisor_spec(xs, xs[i]) as int,
            xs[i] * int_value(base_quotient(xs, i), xs[i] as int),
        ),
{
    lemma_modulus_large();
    let m = modulus() as int;
    let x = xs[i] as int;
    let v = int_value(base_quotient(xs, i), x);
    let slope = poly_eval_spec(poly_derivative_spec(vanishing_spec(xs)), xs[i]) as int;
    let d = divisor_spec(xs, xs[i]);
    lemma_vanishing(xs, i);
    lemma_derivative_value(vanishing_spec(xs), xs[i]);
    lemma_congruent_scaled(slope, v, x);
    lemma_congruent_reduced(x * slope);
    assert(congruent(d as int, x * v));
    lemma_quotient_at_own(xs, i);
    lemma_small_not_zero(x);
    assert(has_inverse(x));
    if congruent(x * v, 0) {
        lemma_cancel(x, v);
    }
    vstd::arithmetic::div_mod::lemma_mod_bound(x * slope, m);
    vstd::arithmetic::div_mod::lemma_small_mod(0, modulus());
    assert(d != 0);
    lemma_field_inverse(d);
}

pub proof fn lemma_own_term(xs: Seq<nat>, ys: Seq<nat>, i: int)
    requires
        field_laws(),
        distinct_points(xs),
        ys.len() == xs.len(),
        0 <= i < xs.len(),
    ensures
        congruent(scale(xs, ys, i) * int_value(base_quotient(xs, i), xs[i] as int), ys[i] as int),
{
    let (x, y) = (xs[i] as int, ys[i] as int);
    let v = int_value(base_quotient(xs, i), x);
    let d = divisor_spec(xs, xs[i]) as int;
    let inv = field_inv(divisor_spec(xs, xs[i])) as int;
    lemma_divisor(xs, i);
    lemma_congruent_scaled(d, x * v, inv);
    lemma_congruent_reduced(inv * d);
    assert(congruent(inv * (x * v), 1));
    lemma_congruent_scaled(inv * (x * v), 1, y);
    assert(scale(xs, ys, i) * v == y * (inv * (x * v))) by (nonlinear_arith)
        requires
            scale(xs, ys, i) == y * inv * x,
    ;
    assert(y * 1 == y) by (nonlinear_arith);
}

pub proof fn lemma_zero_term(xs: Seq<nat>, ys: Seq<nat>, i: int)
    requires
        field_laws(),
        distinct_points(xs),
        ys.len() == xs.len(),
        0 <= i < xs.len(),
    ensures
        congruent(
            scale(xs, ys, i) * int_value(base_quotient(xs, i), 0),
            (ys[i] * weight_spec(xs, xs[i])) as int,
        ),
{
    lemma_modulus_large();
    let (x, y) = (xs[i] as int, ys[i] as int);
    let big = ints(vanishing_spec(xs));
    let z = int_value(base_quotient(xs, i), 0);
    let inv = field_inv(divisor_spec(xs, xs[i])) as int;
    let q0 = constant_term_spec(vanishing_spec(xs)) as int;
    lemma_vanishing(xs, i);
    lemma_root_value(xs, i);
    lemma_division_value(big, x, 0);
    assert(int_value(big, 0) == big[0] + 0 * int_value(big.drop_first(), 0));
    assert(0 * int_value(big.drop_first(), 0) == 0) by (nonlinear_arith);
    assert(x * z == int_value(big, x) - q0) by (nonlinear_arith)
        requires
            q0 == int_value(big, x) + (0 - x) * z,
    ;
    lemma_congruent_sum(int_value(big, x), 0, q0, q0);
    assert(congruent(x * z, -q0));
    lemma_congruent_reduced(-q0);
    let neg = field_neg(q0 as nat) as int;
    assert(congruent(neg, x * z));
    lemma_congruent_scaled(neg, x * z, inv);
    lemma_congruent_reduced(neg * inv);
    let w = weight_spec(xs, xs[i]) as int;
    assert(congruent(w, (x * z) * inv));
    lemma_congruent_scaled(w, (x * z) * inv, y);
    assert(scale(xs, ys, i) * z == y * ((x * z) * inv)) by (nonlinear_arith)
        requires
            scale(xs, ys, i) == y * inv * x,
    ;
}

proof fn lemma_term_sum_at_point(xs: Seq<nat>, ys: Seq<nat>, j: int, n: nat)
    requires
        field_laws(),
        distinct_points(xs),
        ys.len() == xs.len(),
        0 <= j < xs.len(),
        n <= xs.len(),
    ensures
        congruent(term_sum(xs, ys, xs[j] as int, n), if j < n { ys[j] as int } else { 0 }),
    decreases n,
{
    if n > 0 {
        let i = n - 1;
        lemma_term_sum_at_point(xs, ys, j, i as nat);
        let before = term_sum(xs, ys, xs[j] as int, i as nat);
        let term = scale(xs, ys, i) * int_value(base_quotient(xs, i), xs[j] as int);
        if i == j {
            lemma_own_term(xs, ys, i);
            lemma_congruent_sum(before, 0, term, ys[j] as int);
        } else {
            lemma_quotient_at_other(xs, i, j);
            lemma_congruent_scaled(
                int_value(base_quotient(xs, i), xs[j] as int),
                0,
                scale(xs, ys, i),
            );
            assert(scale(xs, ys, i) * 0 == 0) by (nonlinear_arith);
            lemma_congruent_sum(before, if j < i { ys[j] as int } else { 0 }, term, 0);
        }
    }
}

proof fn lemma_remainder_value(f: Seq<int>, xs: Seq<nat>, ys: Seq<nat>, y: int, n: nat)
    requires
        field_laws(),
        distinct_points(xs),
        f.len() == xs.len(),
        n <= xs.len(),
    ensures
        remainder(f, xs, ys, n).len() == f.len(),
        int_value(remainder(f, xs, ys, n), y) == int_value(f, y) - term_sum(xs, ys, y, n),
    decreases n,
{
    if n > 0 {
        let i = n - 1;
        lemma_remainder_value(f, xs, ys, y, i as nat);
        lemma_quotient_at_own(xs, i);
        let q = base_quotient(xs, i);
        let prev = remainder(f, xs, ys, i as nat);
        let now = remainder(f, xs, ys, n);
        assert forall|k: int| 0 <= k < now.len() implies now[k] == prev[k] - scale(xs, ys, i)
            * q[k] by {}
        crate::coefficients::lemma_difference_value(prev, q, scale(xs, ys, i), now, y);
    }
}

/// Interpolation at zero: in a field, for a polynomial with as many
/// coefficients as there are points, the scaled quotients at 0 sum to the
/// constant term.
pub proof fn lemma_interpolation(xs: Seq<nat>, ys: Seq<nat>, f: Seq<nat>)
    requires
        field_laws(),
        distinct_points(xs),
        xs.len() >= 1,
        f.len() == xs.len(),
        ys.len() == xs.len(),
        forall|i: int| 0 <= i < xs.len() ==> ys[i] == poly_eval_spec(f, #[trigger] xs[i]),
    ensures
        congruent(term_sum(xs, ys, 0, xs.len()), f[0] as int),
{
    let m = xs.len();
    let p = remainder(ints(f), xs, ys, m);
    let roots = int_points(xs);
    lemma_remainder_value(ints(f), xs, ys, 0, m);
    assert forall|j: int| 0 <= j < roots.len() implies congruent(
        int_value(p, #[trigger] roots[j]),
        0,
    ) by {
        lemma_remainder_value(ints(f), xs, ys, xs[j] as int, m);
        lemma_term_sum_at_point(xs, ys, j, m);
        lemma_eval_congruent(f, xs[j]);
        lemma_congruent_sum(
            int_value(ints(f), xs[j] as int),
            ys[j] as int,
            term_sum(xs, ys, xs[j] as int, m),
            ys[j] as int,
        );
    }
    lemma_differences(xs);
    lemma_roots_force_zero(p, roots, 0);
    assert(int_value(p, 0) == p[0] + 0 * int_value(p.drop_first(), 0));
    assert(0 * int_value(p.drop_first(), 0) == 0) by (nonlinear_arith);
    let fi = ints(f);
    assert(int_value(fi, 0) == fi[0] + 0 * int_value(fi.drop_first(), 0));
    assert(0 * int_value(fi.drop_first(), 0) == 0) by (nonlinear_arith);
    lemma_congruent_sum(f[0] as int, f[0] as int, p[0], 0);
}

/// The values of the shares.
pub open spec fn share_values(shares: Seq<ShareData>) -> Seq<nat> {
    Seq::new(shares.len(), |i: int| shares[i].share@)
}

pub proof fn lemma_weighted_sum(shares: Seq<ShareData>, n: nat)
    requires
        field_laws(),
        distinct_points(share_points(shares)),
        n <= shares.len(),
    ensures
        congruent(
            weighted_sum_spec(shares, share_points(shares), n) as int,
            term_sum(share_points(shares), share_values(shares), 0, n),
        ),
    decreases n,
{
    lemma_modulus_large();
    let (xs, ys) = (share_points(shares), share_values(shares));
    if n > 0 {
        let i = n - 1;
        lemma_weighted_sum(shares, i as nat);
        lemma_zero_term(xs, ys, i);
        let before = weighted_sum_spec(shares, xs, i as nat) as int;
        let product = (shares[i].share@ * weight_spec(xs, xs[i])) as int;
        lemma_congruent_reduced(product);
        lemma_congruent_sum(
            before,
            term_sum(xs, ys, 0, i as nat),
            product % (modulus() as int),
            scale(xs, ys, i) * int_value(base_quotient(xs, i), 0),
        );
        lemma_congruent_reduced(before + product % (modulus() as int));
    }
}

pub proof fn lemma_no_zero_divisor(xs: Seq<nat>, n: nat)
    requires
        field_laws(),
        distinct_points(xs),
        n <= xs.len(),
    ensures
        first_zero_divisor(xs, n).is_none(),
    decreases n,
{
    if n > 0 {
        lemma_no_zero_divisor(xs, (n - 1) as nat);
        lemma_divisor(xs, n - 1);
    }
}

/// Reconstruction is sound: in a field, as many shares as the sharing
/// polynomial has coefficients, with indices that are not 0 and pairwise
/// different, reconstruct to the polynomial's constant term.
pub proof fn lemma_reconstruction(shares: Seq<ShareData>, poly: Seq<nat>)
    requires
        field_laws(),
        shares.len() >= 1,
        poly.len() == shares.len(),
        forall|i: int| 0 <= i < shares.len() ==> (#[trigger] shares[i]).index != 0,
        forall|i: int, j: int|
            0 <= i < shares.len() && 0 <= j < shares.len() && i != j ==> (#[trigger] shares[i]).index
                != (#[trigger] shares[j]).index,
        shares_of_polynomial(shares, poly),
    ensures
        recover_spec(shares) == Ok::<nat, LagrangeError>(poly[0] % modulus()),
{
    lemma_modulus_large();
    let m = modulus() as int;
    let (xs, ys) = (share_points(shares), share_values(shares));
    assert(distinct_points(xs)) by {
        assert forall|i: int| 0 <= i < xs.len() implies 0 < #[trigger] xs[i] < modulus() by {
            assert(shares[i].index != 0);
        }
        assert forall|i: int, j: int|
            0 <= i < xs.len() && 0 <= j < xs.len() && i != j implies #[trigger] xs[i]
            != #[trigger] xs[j] by {
            assert(shares[i].index != shares[j].index);
        }
    }
    assert forall|i: int| 0 <= i < xs.len() implies ys[i] == poly_eval_spec(
        poly,
        #[trigger] xs[i],
    ) by {
        assert(shares[i].share@ == poly_eval_spec(poly, shares[i].index as nat));
    }
    lemma_no_zero_divisor(xs, xs.len());
    lemma_weighted_sum(shares, shares.len());
    lemma_interpolation(xs, ys, poly);
    let total = weighted_sum_spec(shares, xs, shares.len());
    assert(congruent(total as int, poly[0] as int));
    vstd::arithmetic::div_mod::lemma_mod_bound(
        (weighted_sum_spec(shares, xs, (shares.len() - 1) as nat) + (shares[shares.len()
            - 1].share@ * weight_spec(xs, xs[shares.len() - 1])) % modulus()) as int,
        m,
    );
    vstd::arithmetic::div_mod::lemma_small_mod(total, modulus());
}

/// Every chosen share is one of the issued shares, and no two of the
/// chosen shares have the same index.
pub open spec fn selected_from(chosen: Seq<ShareData>, issued: Seq<ShareData>) -> bool {
    &&& forall|i: int|
        0 <= i < chosen.len() ==> exists|k: int|
            0 <= k < issued.len() && #[trigger] chosen[i] == #[trigger] issued[k]
    &&& forall|i: int, j: int|
        0 <= i < chosen.len() && 0 <= j < chosen.len() && i != j ==> (#[trigger] chosen[i]).index
            != (#[trigger] chosen[j]).index
}

/// No share has the index 0.
pub open spec fn indices_nonzero(shares: Seq<ShareData>) -> bool {
    forall|i: int| 0 <= i < shares.len() ==> (#[trigger] shares[i]).index != 0
}

/// Reconstruction soundness: in a field, any selection of at least as many
/// shares as the sharing polynomial has coefficients reconstructs the
/// constant term of the polynomial, which is the secret.
pub proof fn lemma_threshold_subset_reconstructs(
    issued: Seq<ShareData>,
    poly: Seq<nat>,
    chosen: Seq<ShareData>,
)
    requires
        field_laws(),
        shares_of_polynomial(issued, poly),
        indices_nonzero(issued),
        selected_from(chosen, issued),
        poly.len() >= 1,
        chosen.len() >= poly.len(),
    ensures
        recover_spec(chosen) == Ok::<nat, LagrangeError>(poly[0] % modulus()),
{
    let wide = padded_spec(poly, chosen.len());
    assert forall|i: int| 0 <= i < chosen.len() implies (#[trigger] chosen[i]).index != 0
        && chosen[i].share@ == poly_eval_spec(wide, chosen[i].index as nat) by {
        let k = choose|k: int| 0 <= k < issued.len() && chosen[i] == #[trigger] issued[k];
        assert(issued[k].index != 0);
        assert(issued[k].share@ == poly_eval_spec(poly, issued[k].index as nat));
        lemma_padded_evaluate(poly, chosen.len(), chosen[i].index as nat);
    }
    lemma_reconstruction(chosen, wide);
}

/// Proactive refresh preserves the secret: in a field, any threshold or more
/// of the refreshed shares reconstruct what any threshold or more of the
/// shares before the refresh reconstruct, the constant term of the sharing
/// polynomial.
pub proof fn lemma_refresh_preserves_secret(
    before: Seq<ShareData>,
    after: Seq<ShareData>,
    poly: Seq<nat>,
    delta: Seq<nat>,
    chosen_before: Seq<ShareData>,
    chosen_after: Seq<ShareData>,
)
    requires
        field_laws(),
        shares_of_polynomial(before, poly),
        indices_nonzero(before),
        refreshed_by(before, after, delta),
        poly.len() >= 1,
        delta.len() == poly.len(),
        delta[0] == 0,
        poly[0] < modulus(),
        selected_from(chosen_before, before),
        selected_from(chosen_after, after),
        chosen_before.len() >= poly.len(),
        chosen_after.len() >= poly.len(),
    ensures
        recover_spec(chosen_before) == Ok::<nat, LagrangeError>(poly[0]),
        recover_spec(chosen_after) == recover_spec(chosen_before),
{
    lemma_refresh_keeps_constant_term(before, after, poly, delta);
    assert(indices_nonzero(after)) by {
        assert forall|i: int| 0 <= i < after.len() implies (#[trigger] after[i]).index != 0 by {
            assert(before[i].index != 0);
        }
    }
    lemma_threshold_subset_reconstructs(before, poly, chosen_before);
    lemma_threshold_subset_reconstructs(after, poly_add_spec(poly, delta), chosen_after);
    vstd::arithmetic::div_mod::lemma_small_mod(poly[0], modulus());
}

/// Shares dealt by several parties reconstruct to the sum of the parties'
/// constant terms: in a field, any selection of as many of them as the
/// parties' polynomials have coefficients does.
pub proof fn lemma_dealt_subset_reconstructs(
    shares: Seq<ShareData>,
    polys: Seq<Seq<nat>>,
    len: nat,
    chosen: Seq<ShareData>,
)
    requires
        field_laws(),
        shares_of_contributions(shares, polys),
        indices_nonzero(shares),
        polys.len() >= 1,
        len >= 1,
        all_of_length(polys, len),
        selected_from(chosen, shares),
        chosen.len() >= len,
    ensures
        recover_spec(chosen) == Ok::<nat, LagrangeError>(field_sum(constant_terms(polys))),
{
    lemma_modulus_large();
    lemma_contributions_on_polynomial(shares, polys, len);
    lemma_threshold_subset_reconstructs(shares, poly_sum_spec(polys), chosen);
    let terms = constant_terms(polys);
    vstd::arithmetic::div_mod::lemma_mod_bound(
        (field_sum(terms.drop_last()) + terms.last()) as int,
        modulus() as int,
    );
    vstd::arithmetic::div_mod::lemma_small_mod(field_sum(terms), modulus());
}

/// After resharing, in a field, any selection of as many new shares as the
/// new threshold says reconstructs the sum of the old shares weighted with
/// their Lagrange coefficients.
pub proof fn lemma_reshared_subset_reconstructs(
    existing: Seq<ShareData>,
    lambda: Seq<nat>,
    new_threshold: usize,
    n: usize,
    shares: Seq<ShareData>,
    chosen: Seq<ShareData>,
)
    requires
        field_laws(),
        existing.len() >= 1,
        new_threshold >= 1,
        reshared_with(existing, lambda, new_threshold, n, shares),
        selected_from(chosen, shares),
        chosen.len() >= new_threshold,
    ensures
        recover_spec(chosen) == Ok::<nat, LagrangeError>(
            field_sum(weighted_shares(existing, lambda)),
        ),
{
    let constants = weighted_shares(existing, lambda);
    let polys = choose|polys: Seq<Seq<nat>>|
        contributions_with(polys, constants, new_threshold as nat) && shares_of_contributions(
            shares,
            polys,
        );
    assert(constant_terms(polys) =~= constants);
    assert(indices_nonzero(shares)) by {
        assert forall|i: int| 0 <= i < shares.len() implies (#[trigger] shares[i]).index != 0 by {
            assert(shares[i].index == i + 1);
        }
    }
    lemma_dealt_subset_reconstructs(shares, polys, new_threshold as nat, chosen);
}

/// What is known of issued shares: they are numbered from 1 and lie on a
/// polynomial with `threshold` coefficients whose constant term is the secret.
pub open spec fn issued_for(issued: Seq<ShareData>, secret: nat, threshold: nat) -> bool {
    &&& numbered_and_consistent(issued)
    &&& exists|poly: Seq<nat>|
        poly.len() == threshold && poly[0] == secret && shares_of_polynomial(issued, poly)
}

/// In a field, any selection of at least `threshold` of the shares issued
/// for a secret reconstructs the secret.
pub proof fn lemma_issued_shares_reconstruct(
    issued: Seq<ShareData>,
    secret: nat,
    threshold: nat,
    chosen: Seq<ShareData>,
)
    requires
        field_laws(),
        secret < modulus(),
        threshold >= 1,
        issued_for(issued, secret, threshold),
        selected_from(chosen, issued),
        chosen.len() >= threshold,
    ensures
        recover_spec(chosen) == Ok::<nat, LagrangeError>(secret),
{
    let poly = choose|poly: Seq<nat>|
        poly.len() == threshold && poly[0] == secret && shares_of_polynomial(issued, poly);
    assert(indices_nonzero(issued)) by {
        assert forall|i: int| 0 <= i < issued.len() implies (#[trigger] issued[i]).index != 0 by {
            assert(issued[i].index == i + 1);
        }
    }
    lemma_threshold_subset_reconstructs(issued, poly, chosen);
    vstd::arithmetic::div_mod::lemma_small_mod(secret, modulus());
}

/// In a field, after a refresh of the shares issued for a secret, any
/// selection of at least `threshold` of the refreshed shares still
/// reconstructs the secret.
pub proof fn lemma_refreshed_shares_reconstruct(
    issued: Seq<ShareData>,
    secret: nat,
    threshold: nat,
    refreshed: Seq<ShareData>,
    chosen: Seq<ShareData>,
)
    requires
        field_laws(),
        secret < modulus(),
        threshold >= 1,
        issued_for(issued, secret, threshold),
        exists|delta: Seq<nat>|
            delta.len() == threshold && delta[0] == 0 && refreshed_by(issued, refreshed, delta),
        selected_from(chosen, refreshed),
        chosen.len() >= threshold,
    ensures
        recover_spec(chosen) == Ok::<nat, LagrangeError>(secret),
{
    let poly = choose|poly: Seq<nat>|
        poly.len() == threshold && poly[0] == secret && shares_of_polynomial(issued, poly);
    let delta = choose|delta: Seq<nat>|
        delta.len() == threshold && delta[0] == 0 && refreshed_by(issued, refreshed, delta);
    lemma_refresh_keeps_constant_term(issued, refreshed, poly, delta);
    assert(indices_nonzero(refreshed)) by {
        assert forall|i: int| 0 <= i < refreshed.len() implies (#[trigger] refreshed[i]).index
            != 0 by {
            assert(issued[i].index == i + 1);
        }
    }
    lemma_threshold_subset_reconstructs(refreshed, poly_add_spec(poly, delta), chosen);
    vstd::arithmetic::div_mod::lemma_small_mod(secret, modulus());
}

/// In a field, any selection of at least `threshold` of the shares that
/// several parties dealt reconstructs the secret that the dealing reports.
pub proof fn lemma_dealt_shares_reconstruct(
    dealt: Seq<ShareData>,
    secret: nat,
    parties: nat,
    threshold: nat,
    chosen: Seq<ShareData>,
)
    requires
        field_laws(),
        parties >= 1,
        threshold >= 1,
        numbered_and_consistent(dealt),
        exists|polys: Seq<Seq<nat>>|
            polys.len() == parties && all_of_length(polys, threshold) && secret == field_sum(
                constant_terms(polys),
            ) && shares_of_contributions(dealt, polys),
        selected_from(chosen, dealt),
        chosen.len() >= threshold,
    ensures
        recover_spec(chosen) == Ok::<nat, LagrangeError>(secret),
{
    let polys = choose|polys: Seq<Seq<nat>>|
        polys.len() == parties && all_of_length(polys, threshold) && secret == field_sum(
            constant_terms(polys),
        ) && shares_of_contributions(dealt, polys);
    assert(indices_nonzero(dealt)) by {
        assert forall|i: int| 0 <= i < dealt.len() implies (#[trigger] dealt[i]).index != 0 by {
            assert(dealt[i].index == i + 1);
        }
    }
    lemma_dealt_subset_reconstructs(dealt, polys, threshold, chosen);
}

} // verus!
