//! Polynomials over the scalar field, as coefficient sequences from the
//! constant term upwards.

use vstd::prelude::*;
use crate::karatsuba::{karatsuba_mul, parallel_karatsuba_mul};
use crate::scalar::{lemma_modulus_large, modulus, values_of, Scalar};

verus! {

/// The coefficient of `x^i`, which is 0 beyond the sequence.
pub open spec fn coeff(p: Seq<nat>, i: int) -> nat {
    if 0 <= i < p.len() {
        p[i]
    } else {
        0
    }
}

/// Coefficient-wise sum, the shorter operand padded with zeros.
pub open spec fn poly_add_spec(a: Seq<nat>, b: Seq<nat>) -> Seq<nat> {
    Seq::new(
        if a.len() >= b.len() { a.len() } else { b.len() },
        |i: int| (coeff(a, i) + coeff(b, i)) % modulus(),
    )
}

/// Coefficient-wise difference, the shorter operand padded with zeros.
pub open spec fn poly_sub_spec(a: Seq<nat>, b: Seq<nat>) -> Seq<nat> {
    Seq::new(
        if a.len() >= b.len() { a.len() } else { b.len() },
        |i: int| ((coeff(a, i) - coeff(b, i)) % (modulus() as int)) as nat,
    )
}

/// The part of the `k`-th coefficient of `a * b` that the first `n`
/// coefficients of `a` contribute, over the integers.
pub open spec fn conv_partial(a: Seq<nat>, b: Seq<nat>, k: int, n: nat) -> nat
    decreases n,
{
    if n == 0 {
        0
    } else {
        conv_partial(a, b, k, (n - 1) as nat) + a[n - 1] * coeff(b, k - (n - 1))
    }
}

/// The length of a product: one less than the two lengths together.
pub open spec fn product_len(a: nat, b: nat) -> nat {
    if a + b == 0 {
        0
    } else {
        (a + b - 1) as nat
    }
}

/// The product of two polynomials: each coefficient is the convolution sum,
/// reduced into the field.
pub open spec fn poly_mul_spec(a: Seq<nat>, b: Seq<nat>) -> Seq<nat> {
    Seq::new(product_len(a.len(), b.len()), |k: int| conv_partial(a, b, k, a.len()) % modulus())
}

/// The value of the polynomial at `x`.
pub open spec fn poly_eval_spec(p: Seq<nat>, x: nat) -> nat
    decreases p.len(),
{
    if p.len() == 0 {
        0
    } else {
        (poly_eval_spec(p.drop_first(), x) * x + p[0]) % modulus()
    }
}

/// The formal derivative; a constant or empty polynomial has the derivative `[0]`.
pub open spec fn poly_derivative_spec(p: Seq<nat>) -> Seq<nat> {
    if p.len() <= 1 {
        seq![0nat]
    } else {
        Seq::new((p.len() - 1) as nat, |i: int| ((i + 1) * p[i + 1]) as nat % modulus())
    }
}

/// The coefficient sequences of a sequence of polynomials.
pub open spec fn polys_of(polys: Seq<Vec<Scalar>>) -> Seq<Seq<nat>> {
    Seq::new(polys.len(), |i: int| values_of(polys[i]@))
}

/// The number of coefficients in all the polynomials together.
pub open spec fn total_len(polys: Seq<Seq<nat>>) -> nat
    decreases polys.len(),
{
    if polys.len() == 0 {
        0
    } else {
        total_len(polys.drop_last()) + polys.last().len()
    }
}

/// The product of the polynomials, multiplied together half by half; the
/// empty product is the constant 1.
pub open spec fn poly_product_spec(polys: Seq<Seq<nat>>) -> Seq<nat>
    decreases polys.len(),
{
    if polys.len() == 0 {
        seq![1nat]
    } else if polys.len() == 1 {
        polys[0]
    } else {
        let mid = polys.len() / 2;
        poly_mul_spec(
            poly_product_spec(polys.subrange(0, mid as int)),
            poly_product_spec(polys.subrange(mid as int, polys.len() as int)),
        )
    }
}

proof fn lemma_total_len_split(polys: Seq<Seq<nat>>, mid: int)
    requires
        0 <= mid <= polys.len(),
    ensures
        total_len(polys) == total_len(polys.subrange(0, mid)) + total_len(
            polys.subrange(mid, polys.len() as int),
        ),
    decreases polys.len(),
{
    let n = polys.len() as int;
    if mid == n {
        assert(polys.subrange(0, mid) =~= polys);
        assert(polys.subrange(mid, n).len() == 0);
    } else {
        let front = polys.drop_last();
        lemma_total_len_split(front, mid);
        assert(front.subrange(0, mid) =~= polys.subrange(0, mid));
        assert(polys.subrange(mid, n).drop_last() =~= front.subrange(mid, n - 1));
        assert(polys.subrange(mid, n).last() == polys.last());
    }
}

/// A product has at most one coefficient more than its factors have together.
pub proof fn lemma_product_len(polys: Seq<Seq<nat>>)
    ensures
        poly_product_spec(polys).len() <= total_len(polys) + 1,
    decreases polys.len(),
{
    if polys.len() == 1 {
        assert(polys.drop_last().len() == 0);
        assert(total_len(polys.drop_last()) == 0);
        assert(total_len(polys) == polys[0].len());
    } else if polys.len() >= 2 {
        let mid = (polys.len() / 2) as int;
        lemma_product_len(polys.subrange(0, mid));
        lemma_product_len(polys.subrange(mid, polys.len() as int));
        lemma_total_len_split(polys, mid);
    }
}

/// Sum of two polynomials.
pub fn poly_add(a: &[Scalar], b: &[Scalar]) -> (r: Vec<Scalar>)
    ensures
        values_of(r@) == poly_add_spec(values_of(a@), values_of(b@)),
        r.len() == if a.len() >= b.len() { a.len() } else { b.len() },
{
    let max_len = if a.len() >= b.len() { a.len() } else { b.len() };
    let mut result: Vec<Scalar> = Vec::with_capacity(max_len);
    let mut i: usize = 0;
    while i < max_len
        invariant
            i <= max_len,
            max_len == if a.len() >= b.len() { a.len() } else { b.len() },
            result.len() == i,
            forall|k: int|
                0 <= k < i ==> (#[trigger] result[k])@ == (coeff(values_of(a@), k) + coeff(
                    values_of(b@),
                    k,
                )) % modulus(),
        decreases max_len - i,
    {
        let a_coeff = if i < a.len() { a[i] } else { Scalar::zero() };
        let b_coeff = if i < b.len() { b[i] } else { Scalar::zero() };
        result.push(a_coeff.add(&b_coeff));
        i += 1;
    }
    assert(values_of(result@) =~= poly_add_spec(values_of(a@), values_of(b@)));
    result
}

/// Difference of two polynomials.
pub fn poly_sub(a: &[Scalar], b: &[Scalar]) -> (r: Vec<Scalar>)
    ensures
        values_of(r@) == poly_sub_spec(values_of(a@), values_of(b@)),
        r.len() == if a.len() >= b.len() { a.len() } else { b.len() },
{
    let max_len = if a.len() >= b.len() { a.len() } else { b.len() };
    let mut result: Vec<Scalar> = Vec::with_capacity(max_len);
    let mut i: usize = 0;
    while i < max_len
        invariant
            i <= max_len,
            max_len == if a.len() >= b.len() { a.len() } else { b.len() },
            result.len() == i,
            forall|k: int|
                0 <= k < i ==> (#[trigger] result[k])@ == (coeff(values_of(a@), k) - coeff(
                    values_of(b@),
                    k,
                )) % (modulus() as int),
        decreases max_len - i,
    {
        let a_coeff = if i < a.len() { a[i] } else { Scalar::zero() };
        let b_coeff = if i < b.len() { b[i] } else { Scalar::zero() };
        result.push(a_coeff.sub(&b_coeff));
        i += 1;
    }
    assert(values_of(result@) =~= poly_sub_spec(values_of(a@), values_of(b@)));
    result
}

/// Schoolbook multiplication: every coefficient of `a` against every
/// coefficient of `b`.
pub fn naive_mul(a: &[Scalar], b: &[Scalar]) -> (r: Vec<Scalar>)
    requires
        a.len() + b.len() <= usize::MAX,
    ensures
        values_of(r@) == poly_mul_spec(values_of(a@), values_of(b@)),
{
    let ghost av = values_of(a@);
    let ghost bv = values_of(b@);
    let mut result: Vec<Scalar> = Vec::new();
    if a.len() == 0 && b.len() == 0 {
        assert(values_of(result@) =~= poly_mul_spec(av, bv));
        return result;
    }
    let n = a.len() + b.len() - 1;
    let zero = Scalar::zero();
    let mut k: usize = 0;
    while k < n
        invariant
            k <= n,
            result.len() == k,
            zero@ == 0,
            forall|t: int| 0 <= t < k ==> (#[trigger] result[t])@ == 0,
        decreases n - k,
    {
        result.push(zero);
        k += 1;
    }
    proof {
        lemma_modulus_large();
        vstd::arithmetic::div_mod::lemma_small_mod(0, modulus());
        assert forall|t: int| 0 <= t < n implies conv_partial(av, bv, t, 0) == 0 by {}
    }
    let mut i: usize = 0;
    while i < a.len()
        invariant
            i <= a.len(),
            n == a.len() + b.len() - 1,
            av == values_of(a@),
            bv == values_of(b@),
            result.len() == n,
            forall|t: int|
                0 <= t < n ==> (#[trigger] result[t])@ == conv_partial(av, bv, t, i as nat)
                    % modulus(),
        decreases a.len() - i,
    {
        let mut j: usize = 0;
        while j < b.len()
            invariant
                i < a.len(),
                j <= b.len(),
                n == a.len() + b.len() - 1,
                av == values_of(a@),
                bv == values_of(b@),
                result.len() == n,
                forall|t: int|
                    0 <= t < n ==> (#[trigger] result[t])@ == (conv_partial(av, bv, t, i as nat)
                        + (if i <= t < i + j {
                        av[i as int] * bv[t - i]
                    } else {
                        0
                    })) % modulus(),
            decreases b.len() - j,
        {
            let prod = a[i].mul(&b[j]);
            let cur = result[i + j];
            let sum = cur.add(&prod);
            proof {
                let c = conv_partial(av, bv, (i + j) as int, i as nat);
                let p = av[i as int] * bv[j as int];
                vstd::arithmetic::div_mod::lemma_add_mod_noop(
                    c as int,
                    p as int,
                    modulus() as int,
                );
            }
            result.set(i + j, sum);
            j += 1;
        }
        proof {
            assert forall|t: int| 0 <= t < n implies (#[trigger] result[t])@ == conv_partial(
                av,
                bv,
                t,
                (i + 1) as nat,
            ) % modulus() by {
                assert(conv_partial(av, bv, t, (i + 1) as nat) == conv_partial(
                    av,
                    bv,
                    t,
                    i as nat,
                ) + av[i as int] * coeff(bv, t - i));
                if !(i <= t < i + b.len()) {
                    assert(av[i as int] * coeff(bv, t - i) == 0) by (nonlinear_arith)
                        requires
                            coeff(bv, t - i) == 0,
                    ;
                }
            }
        }
        i += 1;
    }
    assert(values_of(result@) =~= poly_mul_spec(av, bv));
    result
}

/// Product of two polynomials; two empty operands give the empty polynomial.
/// Products of up to 64 coefficients are computed the schoolbook way, larger
/// ones by Karatsuba's formula.
pub fn poly_mul(a: &[Scalar], b: &[Scalar]) -> (r: Vec<Scalar>)
    requires
        a.len() + b.len() <= usize::MAX,
    ensures
        values_of(r@) == poly_mul_spec(values_of(a@), values_of(b@)),
{
    let total = a.len() + b.len();
    if total <= 65 {
        naive_mul(a, b)
    } else if total <= 1025 {
        karatsuba_mul(a, b)
    } else {
        parallel_karatsuba_mul(a, b)
    }
}

/// Product of a sequence of polynomials by balanced divide and conquer.
pub fn poly_product(polys: &[Vec<Scalar>]) -> (r: Vec<Scalar>)
    requires
        total_len(polys_of(polys@)) + 2 <= usize::MAX,
    ensures
        values_of(r@) == poly_product_spec(polys_of(polys@)),
    decreases polys.len(),
{
    let ghost pv = polys_of(polys@);
    if polys.len() == 0 {
        let mut one: Vec<Scalar> = Vec::new();
        one.push(Scalar::one());
        assert(values_of(one@) =~= seq![1nat]);
        return one;
    }
    if polys.len() == 1 {
        let copy = vstd::slice::slice_to_vec(polys[0].as_slice());
        return copy;
    }
    let mid = polys.len() / 2;
    let left_polys = vstd::slice::slice_subrange(polys, 0, mid);
    let right_polys = vstd::slice::slice_subrange(polys, mid, polys.len());
    proof {
        assert(polys_of(left_polys@) =~= pv.subrange(0, mid as int));
        assert(polys_of(right_polys@) =~= pv.subrange(mid as int, polys.len() as int));
        lemma_total_len_split(pv, mid as int);
        lemma_product_len(pv.subrange(0, mid as int));
        lemma_product_len(pv.subrange(mid as int, polys.len() as int));
    }
    let left = poly_product(left_polys);
    let right = poly_product(right_polys);
    poly_mul(left.as_slice(), right.as_slice())
}

/// The formal derivative.
pub fn poly_derivative(poly: &[Scalar]) -> (r: Vec<Scalar>)
    ensures
        values_of(r@) == poly_derivative_spec(values_of(poly@)),
{
    let mut result: Vec<Scalar> = Vec::new();
    if poly.len() <= 1 {
        result.push(Scalar::zero());
        assert(values_of(result@) =~= seq![0nat]);
        return result;
    }
    let mut i: usize = 1;
    while i < poly.len()
        invariant
            1 <= i <= poly.len(),
            result.len() == i - 1,
            forall|t: int|
                0 <= t < i - 1 ==> (#[trigger] result[t])@ == ((t + 1) * values_of(poly@)[t + 1])
                    as nat % modulus(),
        decreases poly.len() - i,
    {
        let factor = Scalar::from_u64(i as u64);
        result.push(factor.mul(&poly[i]));
        i += 1;
    }
    assert(values_of(result@) =~= poly_derivative_spec(values_of(poly@)));
    result
}

/// Evaluation by Horner's rule, from the leading coefficient down.
pub fn poly_evaluate(poly: &[Scalar], x: Scalar) -> (r: Scalar)
    ensures
        r@ == poly_eval_spec(values_of(poly@), x@),
{
    let ghost pv = values_of(poly@);
    let mut acc = Scalar::zero();
    let mut i: usize = poly.len();
    proof {
        assert(pv.subrange(i as int, pv.len() as int).len() == 0);
    }
    while i > 0
        invariant
            i <= poly.len(),
            pv == values_of(poly@),
            acc@ == poly_eval_spec(pv.subrange(i as int, pv.len() as int), x@),
        decreases i,
    {
        i -= 1;
        acc = acc.mul(&x).add(&poly[i]);
        proof {
            let tail = pv.subrange(i as int, pv.len() as int);
            assert(tail.drop_first() =~= pv.subrange(i + 1, pv.len() as int));
            vstd::arithmetic::div_mod::lemma_add_mod_noop_right(
                pv[i as int] as int,
                (poly_eval_spec(tail.drop_first(), x@) * x@) as int,
                modulus() as int,
            );
        }
    }
    assert(pv.subrange(0, pv.len() as int) =~= pv);
    acc
}


/// The value of the polynomial at `x` over the integers, before any reduction.
pub open spec fn exact_value(p: Seq<nat>, x: nat) -> nat
    decreases p.len(),
{
    if p.len() == 0 {
        0
    } else {
        p[0] + x * exact_value(p.drop_first(), x)
    }
}

/// The convolution sums of `a` and `b` over the integers, `len` of them.
pub open spec fn exact_product(a: Seq<nat>, b: Seq<nat>, len: nat) -> Seq<nat> {
    Seq::new(len, |k: int| conv_partial(a, b, k, a.len()))
}

/// The value in the field is the value over the integers, reduced.
pub proof fn lemma_eval_is_reduced_value(p: Seq<nat>, x: nat)
    ensures
        poly_eval_spec(p, x) == exact_value(p, x) % modulus(),
    decreases p.len(),
{
    lemma_modulus_large();
    let m = modulus() as int;
    if p.len() == 0 {
        vstd::arithmetic::div_mod::lemma_small_mod(0, modulus());
    } else {
        let tail = p.drop_first();
        lemma_eval_is_reduced_value(tail, x);
        let t = exact_value(tail, x) as int;
        vstd::arithmetic::div_mod::lemma_mul_mod_noop_left(t, x as int, m);
        vstd::arithmetic::div_mod::lemma_add_mod_noop_right(p[0] as int, (t % m) * x, m);
        vstd::arithmetic::div_mod::lemma_add_mod_noop_right(p[0] as int, t * x, m);
        assert(t * x == x * t) by (nonlinear_arith);
        assert((t % m) * x + p[0] == p[0] + (t % m) * x);
    }
}

/// Polynomials whose coefficients agree modulo the group order have values
/// that agree modulo the group order.
pub proof fn lemma_value_of_congruent(p: Seq<nat>, q: Seq<nat>, x: nat)
    requires
        p.len() == q.len(),
        forall|i: int| 0 <= i < p.len() ==> p[i] % modulus() == q[i] % modulus(),
    ensures
        exact_value(p, x) % modulus() == exact_value(q, x) % modulus(),
    decreases p.len(),
{
    lemma_modulus_large();
    let m = modulus() as int;
    if p.len() > 0 {
        let (pt, qt) = (p.drop_first(), q.drop_first());
        assert forall|i: int| 0 <= i < pt.len() implies pt[i] % modulus() == qt[i] % modulus() by {
            assert(pt[i] == p[i + 1] && qt[i] == q[i + 1]);
        }
        lemma_value_of_congruent(pt, qt, x);
        let (u, v) = (exact_value(pt, x) as int, exact_value(qt, x) as int);
        vstd::arithmetic::div_mod::lemma_mul_mod_noop_right(x as int, u, m);
        vstd::arithmetic::div_mod::lemma_mul_mod_noop_right(x as int, v, m);
        vstd::arithmetic::div_mod::lemma_add_mod_noop(p[0] as int, x * u, m);
        vstd::arithmetic::div_mod::lemma_add_mod_noop(q[0] as int, x * v, m);
    }
}

proof fn lemma_value_of_zeros(p: Seq<nat>, x: nat)
    requires
        forall|i: int| 0 <= i < p.len() ==> p[i] == 0,
    ensures
        exact_value(p, x) == 0,
    decreases p.len(),
{
    if p.len() > 0 {
        let tail = p.drop_first();
        assert forall|i: int| 0 <= i < tail.len() implies tail[i] == 0 by {
            assert(tail[i] == p[i + 1]);
        }
        lemma_value_of_zeros(tail, x);
        assert(x * 0 == 0) by (nonlinear_arith);
    }
}

proof fn lemma_value_of_sum(p: Seq<nat>, q: Seq<nat>, r: Seq<nat>, x: nat)
    requires
        p.len() == r.len(),
        q.len() == r.len(),
        forall|i: int| 0 <= i < r.len() ==> r[i] == p[i] + q[i],
    ensures
        exact_value(r, x) == exact_value(p, x) + exact_value(q, x),
    decreases r.len(),
{
    if r.len() > 0 {
        let (pt, qt, rt) = (p.drop_first(), q.drop_first(), r.drop_first());
        assert forall|i: int| 0 <= i < rt.len() implies rt[i] == pt[i] + qt[i] by {
            assert(rt[i] == r[i + 1] && pt[i] == p[i + 1] && qt[i] == q[i + 1]);
        }
        lemma_value_of_sum(pt, qt, rt, x);
        let (u, v) = (exact_value(pt, x), exact_value(qt, x));
        assert(x * (u + v) == x * u + x * v) by (nonlinear_arith);
    }
}

/// The value of a polynomial scaled by `c` and padded with zeros.
pub proof fn lemma_value_of_scaled(b: Seq<nat>, c: nat, s: Seq<nat>, x: nat)
    requires
        s.len() >= b.len(),
        forall|k: int| 0 <= k < s.len() ==> s[k] == c * coeff(b, k),
    ensures
        exact_value(s, x) == c * exact_value(b, x),
    decreases s.len(),
{
    if b.len() == 0 {
        assert forall|k: int| 0 <= k < s.len() implies s[k] == 0 by {
            assert(c * 0 == 0) by (nonlinear_arith);
        }
        lemma_value_of_zeros(s, x);
        assert(c * 0 == 0) by (nonlinear_arith);
    } else {
        let (bt, st) = (b.drop_first(), s.drop_first());
        assert forall|k: int| 0 <= k < st.len() implies st[k] == c * coeff(bt, k) by {
            assert(st[k] == s[k + 1]);
            assert(coeff(bt, k) == coeff(b, k + 1));
        }
        lemma_value_of_scaled(bt, c, st, x);
        let v = exact_value(bt, x);
        assert(c * b[0] + x * (c * v) == c * (b[0] + x * v)) by (nonlinear_arith);
    }
}

/// A convolution sum is 0 below the constant term and beyond the last
/// coefficient of the product.
pub proof fn lemma_conv_outside(a: Seq<nat>, b: Seq<nat>, k: int, n: nat)
    requires
        n <= a.len(),
        k < 0 || k + 1 >= n + b.len(),
    ensures
        conv_partial(a, b, k, n) == 0,
    decreases n,
{
    if n > 0 {
        lemma_conv_outside(a, b, k, (n - 1) as nat);
        assert(a[n - 1] * 0 == 0) by (nonlinear_arith);
    }
}

proof fn lemma_conv_front(a: Seq<nat>, b: Seq<nat>, k: int, n: nat)
    requires
        1 <= n <= a.len(),
    ensures
        conv_partial(a, b, k, n) == a[0] * coeff(b, k) + conv_partial(
            a.drop_first(),
            b,
            k - 1,
            (n - 1) as nat,
        ),
    decreases n,
{
    let tail = a.drop_first();
    if n == 1 {
        assert(conv_partial(a, b, k, 0) == 0);
        assert(conv_partial(tail, b, k - 1, 0) == 0);
    } else {
        lemma_conv_front(a, b, k, (n - 1) as nat);
        assert(tail[n - 2] == a[n - 1]);
    }
}

/// Over the integers, the value of a product is the product of the values.
pub proof fn lemma_exact_product_value(a: Seq<nat>, b: Seq<nat>, len: nat, x: nat)
    requires
        len + 1 >= a.len() + b.len(),
    ensures
        exact_value(exact_product(a, b, len), x) == exact_value(a, x) * exact_value(b, x),
    decreases a.len(),
{
    let p = exact_product(a, b, len);
    let vb = exact_value(b, x);
    if a.len() == 0 {
        lemma_value_of_zeros(p, x);
        assert(0 * vb == 0) by (nonlinear_arith);
    } else if b.len() == 0 {
        assert forall|k: int| 0 <= k < p.len() implies p[k] == 0 by {
            lemma_conv_zero_factor(a, b, k, a.len());
        }
        lemma_value_of_zeros(p, x);
        assert(exact_value(a, x) * 0 == 0) by (nonlinear_arith);
    } else {
        let (at, bt) = (a.drop_first(), b.drop_first());
        let rest = exact_product(at, b, (len - 1) as nat);
        let scaled = Seq::new((len - 1) as nat, |k: int| a[0] * coeff(bt, k));
        let pt = p.drop_first();
        lemma_conv_front(a, b, 0, a.len());
        lemma_conv_outside(at, b, -1, at.len());
        assert(p[0] == a[0] * b[0]);
        assert forall|k: int| 0 <= k < pt.len() implies pt[k] == scaled[k] + rest[k] by {
            assert(pt[k] == p[k + 1]);
            lemma_conv_front(a, b, k + 1, a.len());
            assert(coeff(bt, k) == coeff(b, k + 1));
        }
        lemma_value_of_sum(scaled, rest, pt, x);
        lemma_value_of_scaled(bt, a[0], scaled, x);
        lemma_exact_product_value(at, b, (len - 1) as nat, x);
        let (va, vbt) = (exact_value(at, x), exact_value(bt, x));
        assert(a[0] * b[0] + x * (a[0] * vbt + va * vb) == (a[0] + x * va) * vb) by (nonlinear_arith)
            requires
                vb == b[0] + x * vbt,
        ;
    }
}

/// A convolution sum with the empty polynomial is 0.
pub proof fn lemma_conv_zero_factor(a: Seq<nat>, b: Seq<nat>, k: int, n: nat)
    requires
        b.len() == 0,
        n <= a.len(),
    ensures
        conv_partial(a, b, k, n) == 0,
    decreases n,
{
    if n > 0 {
        lemma_conv_zero_factor(a, b, k, (n - 1) as nat);
        assert(a[n - 1] * 0 == 0) by (nonlinear_arith);
    }
}

/// Multiplication and evaluation agree: the value of a product at `x` is the
/// product of the values of the factors at `x`, in the field.
pub proof fn lemma_mul_evaluate_compatible(a: Seq<nat>, b: Seq<nat>, x: nat)
    ensures
        poly_eval_spec(poly_mul_spec(a, b), x) == (poly_eval_spec(a, x) * poly_eval_spec(b, x))
            % modulus(),
{
    lemma_modulus_large();
    let m = modulus() as int;
    let len = product_len(a.len(), b.len());
    let reduced = poly_mul_spec(a, b);
    let exact = exact_product(a, b, len);
    assert forall|i: int| 0 <= i < reduced.len() implies reduced[i] % modulus() == exact[i]
        % modulus() by {
        vstd::arithmetic::div_mod::lemma_mod_twice(exact[i] as int, m);
    }
    lemma_value_of_congruent(reduced, exact, x);
    lemma_eval_is_reduced_value(reduced, x);
    lemma_exact_product_value(a, b, len, x);
    lemma_eval_is_reduced_value(a, x);
    lemma_eval_is_reduced_value(b, x);
    vstd::arithmetic::div_mod::lemma_mul_mod_noop(
        exact_value(a, x) as int,
        exact_value(b, x) as int,
        m,
    );
}

/// Addition and evaluation agree: the value of a sum at `x` is the sum of
/// the values at `x`, in the field.
pub proof fn lemma_add_evaluate_compatible(a: Seq<nat>, b: Seq<nat>, x: nat)
    ensures
        poly_eval_spec(poly_add_spec(a, b), x) == (poly_eval_spec(a, x) + poly_eval_spec(b, x))
            % modulus(),
{
    lemma_modulus_large();
    let m = modulus() as int;
    let reduced = poly_add_spec(a, b);
    let n = reduced.len();
    let pa = Seq::new(n, |i: int| coeff(a, i));
    let pb = Seq::new(n, |i: int| coeff(b, i));
    let exact = Seq::new(n, |i: int| coeff(a, i) + coeff(b, i));
    assert forall|k: int| 0 <= k < n implies pa[k] == 1 * coeff(a, k) && pb[k] == 1 * coeff(
        b,
        k,
    ) by {}
    lemma_value_of_scaled(a, 1, pa, x);
    lemma_value_of_scaled(b, 1, pb, x);
    lemma_value_of_sum(pa, pb, exact, x);
    assert forall|i: int| 0 <= i < n implies reduced[i] % modulus() == exact[i] % modulus() by {
        vstd::arithmetic::div_mod::lemma_mod_twice(exact[i] as int, m);
    }
    lemma_value_of_congruent(reduced, exact, x);
    lemma_eval_is_reduced_value(reduced, x);
    lemma_eval_is_reduced_value(a, x);
    lemma_eval_is_reduced_value(b, x);
    vstd::arithmetic::div_mod::lemma_add_mod_noop(
        exact_value(a, x) as int,
        exact_value(b, x) as int,
        m,
    );
}

/// The polynomial padded with zeros to `len` coefficients.
pub open spec fn padded_spec(p: Seq<nat>, len: nat) -> Seq<nat> {
    Seq::new(len, |i: int| coeff(p, i))
}

/// Leading zeros do not change the values of a polynomial.
pub proof fn lemma_padded_evaluate(p: Seq<nat>, len: nat, x: nat)
    requires
        len >= p.len(),
    ensures
        poly_eval_spec(padded_spec(p, len), x) == poly_eval_spec(p, x),
{
    let padded = padded_spec(p, len);
    assert forall|k: int| 0 <= k < padded.len() implies padded[k] == 1 * coeff(p, k) by {}
    lemma_value_of_scaled(p, 1, padded, x);
    lemma_eval_is_reduced_value(padded, x);
    lemma_eval_is_reduced_value(p, x);
}

} // verus!
