//! Karatsuba multiplication of polynomials: three products of half the size
//! in place of four.

use vstd::prelude::*;
use crate::polynomial::{
    coeff, conv_partial, lemma_conv_outside, lemma_conv_zero_factor, naive_mul, poly_add,
    poly_add_spec, poly_mul_spec, poly_sub, poly_sub_spec, product_len,
};
use crate::scalar::{
    congruent, lemma_congruent_reduced, lemma_congruent_scaled, lemma_congruent_sum,
    lemma_modulus_large, modulus, values_of, Scalar,
};

verus! {

/// The `k`-th convolution sum of `a` and `b` over the integers.
pub open spec fn conv(a: Seq<nat>, b: Seq<nat>, k: int) -> int {
    conv_partial(a, b, k, a.len()) as int
}

/// The part of `a` below `x^m`.
pub open spec fn low_part(a: Seq<nat>, m: int) -> Seq<nat> {
    if a.len() > m {
        a.subrange(0, m)
    } else {
        a
    }
}

/// The part of `a` from `x^m` on, divided by `x^m`.
pub open spec fn high_part(a: Seq<nat>, m: int) -> Seq<nat> {
    if a.len() > m {
        a.subrange(m, a.len() as int)
    } else {
        Seq::empty()
    }
}

/// The middle term of Karatsuba's formula, from the product of the sums and
/// the products of the low and of the high parts.
pub open spec fn middle_spec(zs: Seq<nat>, z0: Seq<nat>, z2: Seq<nat>) -> Seq<nat> {
    poly_sub_spec(poly_sub_spec(zs, z0), z2)
}

/// The three terms put together: `z0 + z1 * x^m + z2 * x^(2m)`, cut to `len`
/// coefficients.
pub open spec fn combine_spec(z0: Seq<nat>, z1: Seq<nat>, z2: Seq<nat>, m: int, len: nat) -> Seq<
    nat,
> {
    Seq::new(
        len,
        |k: int|
            ((coeff(z0, k) + coeff(z1, k - m)) % modulus() + coeff(z2, k - 2 * m)) % modulus(),
    )
}

proof fn lemma_conv_prefix(a: Seq<nat>, p: Seq<nat>, b: Seq<nat>, k: int, n: nat)
    requires
        n <= p.len() <= a.len(),
        forall|i: int| 0 <= i < p.len() ==> p[i] == a[i],
    ensures
        conv_partial(a, b, k, n) == conv_partial(p, b, k, n),
    decreases n,
{
    if n > 0 {
        lemma_conv_prefix(a, p, b, k, (n - 1) as nat);
    }
}

proof fn lemma_conv_split_left(a: Seq<nat>, b: Seq<nat>, k: int, m: int, n: nat)
    requires
        0 <= m < a.len(),
        m + n <= a.len(),
    ensures
        conv_partial(a, b, k, (m + n) as nat) == conv_partial(a.subrange(0, m), b, k, m as nat)
            + conv_partial(a.subrange(m, a.len() as int), b, k - m, n),
    decreases n,
{
    let high = a.subrange(m, a.len() as int);
    if n == 0 {
        lemma_conv_prefix(a, a.subrange(0, m), b, k, m as nat);
    } else {
        lemma_conv_split_left(a, b, k, m, (n - 1) as nat);
        assert(high[n - 1] == a[m + n - 1]);
        assert(k - (m + n - 1) == (k - m) - (n - 1));
    }
}

proof fn lemma_conv_split_right(a: Seq<nat>, b: Seq<nat>, k: int, m: int, n: nat)
    requires
        0 <= m < b.len(),
        n <= a.len(),
    ensures
        conv_partial(a, b, k, n) == conv_partial(a, b.subrange(0, m), k, n) + conv_partial(
            a,
            b.subrange(m, b.len() as int),
            k - m,
            n,
        ),
    decreases n,
{
    if n > 0 {
        lemma_conv_split_right(a, b, k, m, (n - 1) as nat);
        let j = k - (n - 1);
        let (low, high) = (b.subrange(0, m), b.subrange(m, b.len() as int));
        assert(coeff(b, j) == coeff(low, j) + coeff(high, j - m));
        assert(a[n - 1] * (coeff(low, j) + coeff(high, j - m)) == a[n - 1] * coeff(low, j) + a[n
            - 1] * coeff(high, j - m)) by (nonlinear_arith);
        assert((k - m) - (n - 1) == j - m);
    }
}

/// Karatsuba's starting point: the product splits into the four products
/// of the parts.
proof fn lemma_conv_of_parts(a: Seq<nat>, b: Seq<nat>, k: int, m: int)
    requires
        m >= 1,
    ensures
        conv(a, b, k) == conv(low_part(a, m), low_part(b, m), k) + conv(
            low_part(a, m),
            high_part(b, m),
            k - m,
        ) + conv(high_part(a, m), low_part(b, m), k - m) + conv(
            high_part(a, m),
            high_part(b, m),
            k - 2 * m,
        ),
{
    let (al, ah, bl, bh) = (low_part(a, m), high_part(a, m), low_part(b, m), high_part(b, m));
    if a.len() > m {
        lemma_conv_split_left(a, b, k, m, (a.len() - m) as nat);
    }
    assert(conv(a, b, k) == conv(al, b, k) + conv(ah, b, k - m));
    if b.len() > m {
        lemma_conv_split_right(al, b, k, m, al.len());
        lemma_conv_split_right(ah, b, k - m, m, ah.len());
    } else {
        lemma_conv_zero_factor(al, bh, k - m, al.len());
        lemma_conv_zero_factor(ah, bh, k - 2 * m, ah.len());
    }
}

/// The convolution sum with `a` padded by zeros up to `n` coefficients.
spec fn conv_padded(a: Seq<nat>, b: Seq<nat>, k: int, n: nat) -> int
    decreases n,
{
    if n == 0 {
        0
    } else {
        conv_padded(a, b, k, (n - 1) as nat) + coeff(a, n - 1) * coeff(b, k - (n - 1))
    }
}

proof fn lemma_conv_padded(a: Seq<nat>, b: Seq<nat>, k: int, n: nat)
    ensures
        conv_padded(a, b, k, n) == if n <= a.len() {
            conv_partial(a, b, k, n) as int
        } else {
            conv(a, b, k)
        },
    decreases n,
{
    if n > 0 {
        lemma_conv_padded(a, b, k, (n - 1) as nat);
        if n > a.len() {
            assert(0 * coeff(b, k - (n - 1)) == 0) by (nonlinear_arith);
        }
    }
}

proof fn lemma_conv_sum_left(s: Seq<nat>, p: Seq<nat>, q: Seq<nat>, b: Seq<nat>, k: int, n: nat)
    requires
        n <= s.len(),
        forall|i: int| 0 <= i < s.len() ==> congruent(s[i] as int, (coeff(p, i) + coeff(q, i)) as int),
    ensures
        congruent(
            conv_partial(s, b, k, n) as int,
            conv_padded(p, b, k, n) + conv_padded(q, b, k, n),
        ),
    decreases n,
{
    if n > 0 {
        lemma_conv_sum_left(s, p, q, b, k, (n - 1) as nat);
        let c = coeff(b, k - (n - 1)) as int;
        let (u, v) = (coeff(p, n - 1) as int, coeff(q, n - 1) as int);
        lemma_congruent_scaled(s[n - 1] as int, u + v, c);
        assert((u + v) * c == u * c + v * c) by (nonlinear_arith);
        lemma_congruent_sum(
            conv_partial(s, b, k, (n - 1) as nat) as int,
            conv_padded(p, b, k, (n - 1) as nat) + conv_padded(q, b, k, (n - 1) as nat),
            s[n - 1] * c,
            u * c + v * c,
        );
    }
}

proof fn lemma_conv_sum_right(a: Seq<nat>, s: Seq<nat>, p: Seq<nat>, q: Seq<nat>, k: int, n: nat)
    requires
        n <= a.len(),
        forall|j: int| congruent(#[trigger] coeff(s, j) as int, (coeff(p, j) + coeff(q, j)) as int),
    ensures
        congruent(
            conv_partial(a, s, k, n) as int,
            (conv_partial(a, p, k, n) + conv_partial(a, q, k, n)) as int,
        ),
    decreases n,
{
    if n > 0 {
        lemma_conv_sum_right(a, s, p, q, k, (n - 1) as nat);
        let j = k - (n - 1);
        let c = a[n - 1] as int;
        let (u, v) = (coeff(p, j) as int, coeff(q, j) as int);
        lemma_congruent_scaled(coeff(s, j) as int, u + v, c);
        assert(c * (u + v) == c * u + c * v) by (nonlinear_arith);
        lemma_congruent_sum(
            conv_partial(a, s, k, (n - 1) as nat) as int,
            (conv_partial(a, p, k, (n - 1) as nat) + conv_partial(a, q, k, (n - 1) as nat)) as int,
            c * coeff(s, j),
            c * u + c * v,
        );
    }
}

proof fn lemma_sum_coefficients(p: Seq<nat>, q: Seq<nat>)
    ensures
        forall|j: int|
            congruent(
                #[trigger] coeff(poly_add_spec(p, q), j) as int,
                (coeff(p, j) + coeff(q, j)) as int,
            ),
{
    lemma_modulus_large();
    let s = poly_add_spec(p, q);
    assert forall|j: int|
        congruent(#[trigger] coeff(s, j) as int, (coeff(p, j) + coeff(q, j)) as int) by {
        if 0 <= j < s.len() {
            lemma_congruent_reduced((coeff(p, j) + coeff(q, j)) as int);
        }
    }
}

/// The product of the sums of the parts holds all four products of the parts.
proof fn lemma_conv_of_sums(al: Seq<nat>, ah: Seq<nat>, bl: Seq<nat>, bh: Seq<nat>, j: int)
    ensures
        congruent(
            conv(poly_add_spec(al, ah), poly_add_spec(bl, bh), j),
            conv(al, bl, j) + conv(al, bh, j) + conv(ah, bl, j) + conv(ah, bh, j),
        ),
{
    let (sa, sb) = (poly_add_spec(al, ah), poly_add_spec(bl, bh));
    lemma_sum_coefficients(al, ah);
    lemma_sum_coefficients(bl, bh);
    assert forall|i: int| 0 <= i < sa.len() implies congruent(
        sa[i] as int,
        (coeff(al, i) + coeff(ah, i)) as int,
    ) by {
        assert(sa[i] == coeff(sa, i));
    }
    lemma_conv_sum_left(sa, al, ah, sb, j, sa.len());
    lemma_conv_padded(al, sb, j, sa.len());
    lemma_conv_padded(ah, sb, j, sa.len());
    lemma_conv_sum_right(al, sb, bl, bh, j, al.len());
    lemma_conv_sum_right(ah, sb, bl, bh, j, ah.len());
    lemma_congruent_sum(
        conv(al, sb, j),
        conv(al, bl, j) + conv(al, bh, j),
        conv(ah, sb, j),
        conv(ah, bl, j) + conv(ah, bh, j),
    );
}

/// Every coefficient of a product, also beyond its length, is the
/// convolution sum.
proof fn lemma_product_coefficient(p: Seq<nat>, q: Seq<nat>, j: int)
    ensures
        congruent(coeff(poly_mul_spec(p, q), j) as int, conv(p, q, j)),
{
    if 0 <= j < product_len(p.len(), q.len()) {
        lemma_congruent_reduced(conv(p, q, j));
    } else {
        lemma_conv_outside(p, q, j, p.len());
    }
}

proof fn lemma_difference_coefficient(p: Seq<nat>, q: Seq<nat>, j: int)
    ensures
        congruent(coeff(poly_sub_spec(p, q), j) as int, coeff(p, j) - coeff(q, j)),
{
    lemma_modulus_large();
    if 0 <= j < poly_sub_spec(p, q).len() {
        lemma_congruent_reduced(coeff(p, j) - coeff(q, j));
        vstd::arithmetic::div_mod::lemma_mod_bound(
            coeff(p, j) - coeff(q, j),
            modulus() as int,
        );
    }
}

/// Karatsuba's formula gives the product: the three terms, made from the
/// products of the low parts, of the high parts and of the sums, put
/// together are the product of `a` and `b`.
pub proof fn lemma_karatsuba(a: Seq<nat>, b: Seq<nat>, m: int)
    requires
        m >= 1,
    ensures
        combine_spec(
            poly_mul_spec(low_part(a, m), low_part(b, m)),
            middle_spec(
                poly_mul_spec(
                    poly_add_spec(low_part(a, m), high_part(a, m)),
                    poly_add_spec(low_part(b, m), high_part(b, m)),
                ),
                poly_mul_spec(low_part(a, m), low_part(b, m)),
                poly_mul_spec(high_part(a, m), high_part(b, m)),
            ),
            poly_mul_spec(high_part(a, m), high_part(b, m)),
            m,
            product_len(a.len(), b.len()),
        ) == poly_mul_spec(a, b),
{
    lemma_modulus_large();
    let (al, ah, bl, bh) = (low_part(a, m), high_part(a, m), low_part(b, m), high_part(b, m));
    let z0 = poly_mul_spec(al, bl);
    let z2 = poly_mul_spec(ah, bh);
    let zs = poly_mul_spec(poly_add_spec(al, ah), poly_add_spec(bl, bh));
    let z1 = middle_spec(zs, z0, z2);
    let len = product_len(a.len(), b.len());
    let got = combine_spec(z0, z1, z2, m, len);
    assert forall|k: int| 0 <= k < len implies got[k] == poly_mul_spec(a, b)[k] by {
        let j = k - m;
        // the middle term at j
        lemma_product_coefficient(poly_add_spec(al, ah), poly_add_spec(bl, bh), j);
        lemma_product_coefficient(al, bl, j);
        lemma_product_coefficient(ah, bh, j);
        lemma_conv_of_sums(al, ah, bl, bh, j);
        let inner = poly_sub_spec(zs, z0);
        lemma_difference_coefficient(zs, z0, j);
        lemma_difference_coefficient(inner, z2, j);
        let four = conv(al, bl, j) + conv(al, bh, j) + conv(ah, bl, j) + conv(ah, bh, j);
        lemma_congruent_sum(coeff(zs, j) as int, four, coeff(z0, j) as int, conv(al, bl, j));
        lemma_congruent_sum(
            coeff(inner, j) as int,
            four - conv(al, bl, j),
            coeff(z2, j) as int,
            conv(ah, bh, j),
        );
        let cross = conv(al, bh, j) + conv(ah, bl, j);
        assert(congruent(coeff(z1, j) as int, cross));
        // the three terms at k
        lemma_product_coefficient(al, bl, k);
        lemma_product_coefficient(ah, bh, k - 2 * m);
        lemma_congruent_sum(coeff(z0, k) as int, conv(al, bl, k), coeff(z1, j) as int, cross);
        lemma_congruent_reduced((coeff(z0, k) + coeff(z1, j)) as int);
        lemma_congruent_sum(
            ((coeff(z0, k) + coeff(z1, j)) % modulus()) as int,
            conv(al, bl, k) + cross,
            coeff(z2, k - 2 * m) as int,
            conv(ah, bh, k - 2 * m),
        );
        lemma_conv_of_parts(a, b, k, m);
    }
    assert(got =~= poly_mul_spec(a, b));
}

/// The field element at `i`, or 0 beyond the coefficients.
fn coefficient_at(p: &[Scalar], i: usize) -> (r: Scalar)
    ensures
        r@ == coeff(values_of(p@), i as int),
{
    if i < p.len() {
        p[i]
    } else {
        Scalar::zero()
    }
}

/// `z0 + z1 * x^m + z2 * x^(2m)`, cut to `len` coefficients.
fn combine(z0: &[Scalar], z1: &[Scalar], z2: &[Scalar], m: usize, len: usize) -> (r: Vec<Scalar>)
    ensures
        values_of(r@) == combine_spec(
            values_of(z0@),
            values_of(z1@),
            values_of(z2@),
            m as int,
            len as nat,
        ),
{
    let zero = Scalar::zero();
    let mut result: Vec<Scalar> = Vec::with_capacity(len);
    let mut k: usize = 0;
    while k < len
        invariant
            k <= len,
            zero@ == 0,
            result.len() == k,
            forall|t: int|
                0 <= t < k ==> (#[trigger] result[t])@ == ((coeff(values_of(z0@), t) + coeff(
                    values_of(z1@),
                    t - m,
                )) % modulus() + coeff(values_of(z2@), t - 2 * m)) % modulus(),
        decreases len - k,
    {
        let c0 = coefficient_at(z0, k);
        let c1 = if k >= m { coefficient_at(z1, k - m) } else { zero };
        let c2 = if k >= m && k - m >= m { coefficient_at(z2, k - m - m) } else { zero };
        result.push(c0.add(&c1).add(&c2));
        k += 1;
    }
    assert(values_of(result@) =~= combine_spec(
        values_of(z0@),
        values_of(z1@),
        values_of(z2@),
        m as int,
        len as nat,
    ));
    result
}

/// The larger of the two lengths.
fn larger(a: usize, b: usize) -> (r: usize)
    ensures
        r == if a >= b { a } else { b },
{
    if a >= b {
        a
    } else {
        b
    }
}

/// The coefficients below `x^m`.
fn low_half(a: &[Scalar], m: usize) -> (r: &[Scalar])
    ensures
        values_of(r@) == low_part(values_of(a@), m as int),
        r.len() == if a.len() > m { m } else { a.len() },
{
    if a.len() > m {
        let r = vstd::slice::slice_subrange(a, 0, m);
        assert(values_of(r@) =~= values_of(a@).subrange(0, m as int));
        r
    } else {
        a
    }
}

/// The coefficients from `x^m` on.
fn high_half(a: &[Scalar], m: usize) -> (r: &[Scalar])
    ensures
        values_of(r@) == high_part(values_of(a@), m as int),
        r.len() == if a.len() > m { a.len() - m } else { 0 },
{
    if a.len() > m {
        let r = vstd::slice::slice_subrange(a, m, a.len());
        assert(values_of(r@) =~= values_of(a@).subrange(m as int, a.len() as int));
        r
    } else {
        let r = vstd::slice::slice_subrange(a, 0, 0);
        assert(values_of(r@) =~= Seq::<nat>::empty());
        r
    }
}

/// Karatsuba multiplication; operands of at most `cutoff` coefficients are
/// multiplied the schoolbook way.
fn karatsuba_above(a: &[Scalar], b: &[Scalar], cutoff: usize) -> (r: Vec<Scalar>)
    requires
        a.len() + b.len() <= usize::MAX,
        cutoff >= 2,
    ensures
        values_of(r@) == poly_mul_spec(values_of(a@), values_of(b@)),
    decreases a.len() + b.len(),
{
    let n = larger(a.len(), b.len());
    if n <= cutoff {
        return naive_mul(a, b);
    }
    let m = n / 2;
    let a_low = low_half(a, m);
    let a_high = high_half(a, m);
    let b_low = low_half(b, m);
    let b_high = high_half(b, m);
    let z0 = karatsuba_above(a_low, b_low, cutoff);
    let z2 = karatsuba_above(a_high, b_high, cutoff);
    let a_sum = poly_add(a_low, a_high);
    let b_sum = poly_add(b_low, b_high);
    let zs = karatsuba_above(a_sum.as_slice(), b_sum.as_slice(), cutoff);
    let z1 = poly_sub(poly_sub(zs.as_slice(), z0.as_slice()).as_slice(), z2.as_slice());
    proof {
        lemma_karatsuba(values_of(a@), values_of(b@), m as int);
    }
    combine(z0.as_slice(), z1.as_slice(), z2.as_slice(), m, a.len() + b.len() - 1)
}

/// Karatsuba multiplication for polynomials of medium size: above 32
/// coefficients the operands are split in halves.
pub fn karatsuba_mul(a: &[Scalar], b: &[Scalar]) -> (r: Vec<Scalar>)
    requires
        a.len() + b.len() <= usize::MAX,
    ensures
        values_of(r@) == poly_mul_spec(values_of(a@), values_of(b@)),
{
    karatsuba_above(a, b, 32)
}

/// Karatsuba multiplication for large polynomials: above 1024 coefficients
/// the operands are split in halves, whose products do not depend on each
/// other; below, `karatsuba_mul` takes over.
pub fn parallel_karatsuba_mul(a: &[Scalar], b: &[Scalar]) -> (r: Vec<Scalar>)
    requires
        a.len() + b.len() <= usize::MAX,
    ensures
        values_of(r@) == poly_mul_spec(values_of(a@), values_of(b@)),
    decreases a.len() + b.len(),
{
    let n = larger(a.len(), b.len());
    if n <= 1024 {
        return karatsuba_mul(a, b);
    }
    let m = n / 2;
    let a_low = low_half(a, m);
    let a_high = high_half(a, m);
    let b_low = low_half(b, m);
    let b_high = high_half(b, m);
    let z0 = parallel_karatsuba_mul(a_low, b_low);
    let z2 = parallel_karatsuba_mul(a_high, b_high);
    let a_sum = poly_add(a_low, a_high);
    let b_sum = poly_add(b_low, b_high);
    let zs = parallel_karatsuba_mul(a_sum.as_slice(), b_sum.as_slice());
    let z1 = poly_sub(poly_sub(zs.as_slice(), z0.as_slice()).as_slice(), z2.as_slice());
    proof {
        lemma_karatsuba(values_of(a@), values_of(b@), m as int);
    }
    combine(z0.as_slice(), z1.as_slice(), z2.as_slice(), m, a.len() + b.len() - 1)
}

} // verus!
