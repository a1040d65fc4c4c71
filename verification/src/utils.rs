//! Helpers on scalars: powers, aggregated randomness and decimal text.

use vstd::prelude::*;
use vstd::string::StringExecFns;
use crate::scalar::{field_pow, field_sum, modulus, values_of, Scalar};

verus! {

/// The decimal digit `d` as a character.
pub open spec fn digit_char(d: nat) -> char {
    if d == 0 {
        '0'
    } else if d == 1 {
        '1'
    } else if d == 2 {
        '2'
    } else if d == 3 {
        '3'
    } else if d == 4 {
        '4'
    } else if d == 5 {
        '5'
    } else if d == 6 {
        '6'
    } else if d == 7 {
        '7'
    } else if d == 8 {
        '8'
    } else {
        '9'
    }
}

/// The decimal numeral of `n`, without leading zeros.
pub open spec fn decimal_spec(n: nat) -> Seq<char>
    decreases n,
{
    if n < 10 {
        seq![digit_char(n)]
    } else {
        decimal_spec(n / 10) + seq![digit_char(n % 10)]
    }
}

fn digit_text(d: u64) -> (r: &'static str)
    requires
        d < 10,
    ensures
        r@ == seq![digit_char(d as nat)],
{
    proof {
        reveal_strlit("0");
        reveal_strlit("1");
        reveal_strlit("2");
        reveal_strlit("3");
        reveal_strlit("4");
        reveal_strlit("5");
        reveal_strlit("6");
        reveal_strlit("7");
        reveal_strlit("8");
        reveal_strlit("9");
    }
    let r = if d == 0 {
        "0"
    } else if d == 1 {
        "1"
    } else if d == 2 {
        "2"
    } else if d == 3 {
        "3"
    } else if d == 4 {
        "4"
    } else if d == 5 {
        "5"
    } else if d == 6 {
        "6"
    } else if d == 7 {
        "7"
    } else if d == 8 {
        "8"
    } else {
        "9"
    };
    assert(r@ =~= seq![digit_char(d as nat)]);
    r
}

/// The decimal numeral of `n`.
pub fn decimal(n: u64) -> (r: String)
    ensures
        r@ == decimal_spec(n as nat),
    decreases n,
{
    if n < 10 {
        String::from_str(digit_text(n))
    } else {
        decimal(n / 10).concat(digit_text(n % 10))
    }
}

/// The sum of the contributed scalars, which is uniform as soon as one of
/// them is.
pub fn distributed_random_scalar(contributions: &[Scalar]) -> (r: Scalar)
    ensures
        r@ == field_sum(values_of(contributions@)),
{
    let ghost cv = values_of(contributions@);
    let mut total = Scalar::zero();
    let mut i: usize = 0;
    assert(cv.subrange(0, 0).len() == 0);
    while i < contributions.len()
        invariant
            i <= contributions.len(),
            cv == values_of(contributions@),
            total@ == field_sum(cv.subrange(0, i as int)),
        decreases contributions.len() - i,
    {
        total = total.add(&contributions[i]);
        assert(cv.subrange(0, i + 1).drop_last() =~= cv.subrange(0, i as int));
        i += 1;
    }
    assert(cv.subrange(0, cv.len() as int) =~= cv);
    total
}

/// `field_pow` of a square: `(b * b)^e == b^(2e)`.
proof fn lemma_pow_of_square(b: nat, e: nat)
    ensures
        field_pow((b * b) % modulus(), e) == field_pow(b, 2 * e),
    decreases e,
{
    crate::scalar::lemma_modulus_large();
    if e > 0 {
        lemma_pow_of_square(b, (e - 1) as nat);
        let m = modulus() as int;
        let inner = field_pow(b, (2 * e - 2) as nat) as int;
        let sq = (b * b) as int;
        assert(field_pow(b, (2 * e - 1) as nat) == (b * field_pow(b, (2 * e - 2) as nat)) % modulus());
        assert(field_pow(b, 2 * e) == (b * field_pow(b, (2 * e - 1) as nat)) % modulus());
        // (sq % m * inner) % m == (b * ((b * inner) % m)) % m
        vstd::arithmetic::div_mod::lemma_mul_mod_noop_left(sq, inner, m);
        vstd::arithmetic::div_mod::lemma_mul_mod_noop_right(b as int, b * inner, m);
        assert(sq * inner == b * (b * inner)) by (nonlinear_arith)
            requires
                sq == b * b,
        ;
    }
}

/// The power `base^exp` in the field, by repeated squaring.
pub fn pow_scalar(base: Scalar, exp: u32) -> (r: Scalar)
    ensures
        r@ == field_pow(base@, exp as nat),
{
    let mut result = Scalar::one();
    let mut square = base;
    let mut rest: u32 = exp;
    proof {
        crate::scalar::lemma_modulus_large();
        lemma_pow_step(result@, square@, rest as nat);
    }
    while rest > 0
        invariant
            result@ < modulus(),
            (result@ * field_pow(square@, rest as nat)) % modulus() == field_pow(
                base@,
                exp as nat,
            ),
        decreases rest,
    {
        let ghost acc_before = result@;
        let ghost square_before = square@;
        if rest % 2 == 1 {
            result = result.mul(&square);
        }
        square = square.mul(&square);
        proof {
            vstd::arithmetic::div_mod::lemma_mod_bound((acc_before * square_before) as int, modulus() as int);
            let half = (rest / 2) as nat;
            lemma_pow_of_square(square_before, half);
            let m = modulus() as int;
            let p = field_pow(square_before, 2 * half) as int;
            if rest % 2 == 1 {
                assert(field_pow(square_before, rest as nat) == (square_before * field_pow(square_before, 2 * half)) % modulus());
                vstd::arithmetic::div_mod::lemma_mul_mod_noop_right(acc_before as int, square_before * p, m);
                vstd::arithmetic::div_mod::lemma_mul_mod_noop_left((acc_before * square_before) as int, p, m);
                assert(acc_before * (square_before * p) == (acc_before * square_before) * p) by (nonlinear_arith);
            }
        }
        rest = rest / 2;
    }
    proof {
        vstd::arithmetic::div_mod::lemma_small_mod(result@, modulus());
        assert(result@ * 1 == result@) by (nonlinear_arith);
    }
    result
}

proof fn lemma_pow_step(one: nat, b: nat, e: nat)
    requires
        one == 1,
    ensures
        (one * field_pow(b, e)) % modulus() == field_pow(b, e),
    decreases e,
{
    crate::scalar::lemma_modulus_large();
    assert(one * field_pow(b, e) == field_pow(b, e)) by (nonlinear_arith)
        requires
            one == 1,
    ;
    if e == 0 {
        vstd::arithmetic::div_mod::lemma_small_mod(1, modulus());
    } else {
        vstd::arithmetic::div_mod::lemma_mod_twice(
            (b * field_pow(b, (e - 1) as nat)) as int,
            modulus() as int,
        );
    }
}

} // verus!
