//! Elements of the scalar field: integers modulo the prime order of the group.

use vstd::prelude::*;

verus! {

/// The prime order of the Ristretto group, which is the size of the scalar field.
pub open spec fn modulus() -> nat {
    vstd::arithmetic::power2::pow2(252) + 27742317777372353535851937790883648493
}

/// The natural number that a little-endian byte string stands for.
pub open spec fn le_value(bytes: Seq<u8>) -> nat
    decreases bytes.len(),
{
    if bytes.len() == 0 {
        0
    } else {
        (bytes[0] as nat) + 256 * le_value(bytes.drop_first())
    }
}

/// `r` is the multiplicative inverse of `a` in the scalar field.
pub open spec fn is_inverse(r: nat, a: nat) -> bool {
    r < modulus() && (r * a) % modulus() == 1
}

/// The multiplicative inverse of `a`, where it has one.
pub open spec fn field_inv(a: nat) -> nat {
    choose|r: nat| is_inverse(r, a)
}

/// The difference `a - b` in the field.
pub open spec fn field_sub(a: nat, b: nat) -> nat {
    ((a - b) % (modulus() as int)) as nat
}

/// The additive inverse of `a` in the field.
pub open spec fn field_neg(a: nat) -> nat {
    ((-(a as int)) % (modulus() as int)) as nat
}

/// `base` raised to `exp` in the scalar field.
pub open spec fn field_pow(base: nat, exp: nat) -> nat
    decreases exp,
{
    if exp == 0 {
        1
    } else {
        (base * field_pow(base, (exp - 1) as nat)) % modulus()
    }
}

/// The sum of the values in the scalar field.
pub open spec fn field_sum(values: Seq<nat>) -> nat
    decreases values.len(),
{
    if values.len() == 0 {
        0
    } else {
        (field_sum(values.drop_last()) + values.last()) % modulus()
    }
}

/// The values of a sequence of scalars.
pub open spec fn values_of(scalars: Seq<Scalar>) -> Seq<nat> {
    Seq::new(scalars.len(), |i: int| scalars[i]@)
}

/// A field element, kept as the 32 little-endian bytes of its canonical
/// representative.
#[derive(Clone, Copy, Debug, PartialEq, Eq)]
pub struct Scalar {
    pub(crate) bytes: [u8; 32],
}

impl View for Scalar {
    type V = nat;

    closed spec fn view(&self) -> nat {
        le_value(self.bytes@)
    }
}

/// The modulus is larger than every `u64`, so small integers are their own
/// representatives.
pub proof fn lemma_modulus_large()
    ensures
        modulus() > 0x1_0000_0000_0000_0000,
{
    vstd::arithmetic::power2::lemma2_to64();
    vstd::arithmetic::power2::lemma_pow2_strictly_increases(64, 252);
}

/// `x` and `y` stand for the same field element.
pub open spec fn congruent(x: int, y: int) -> bool {
    x % (modulus() as int) == y % (modulus() as int)
}

/// Congruence is kept by sums and differences.
pub proof fn lemma_congruent_sum(x1: int, y1: int, x2: int, y2: int)
    requires
        congruent(x1, y1),
        congruent(x2, y2),
    ensures
        congruent(x1 + x2, y1 + y2),
        congruent(x1 - x2, y1 - y2),
{
    lemma_modulus_large();
    let m = modulus() as int;
    vstd::arithmetic::div_mod::lemma_add_mod_noop(x1, x2, m);
    vstd::arithmetic::div_mod::lemma_add_mod_noop(y1, y2, m);
    vstd::arithmetic::div_mod::lemma_sub_mod_noop(x1, x2, m);
    vstd::arithmetic::div_mod::lemma_sub_mod_noop(y1, y2, m);
}

/// Congruence is kept by multiplication with a number.
pub proof fn lemma_congruent_scaled(x: int, y: int, c: int)
    requires
        congruent(x, y),
    ensures
        congruent(x * c, y * c),
        congruent(c * x, c * y),
{
    lemma_modulus_large();
    let m = modulus() as int;
    vstd::arithmetic::div_mod::lemma_mul_mod_noop_left(x, c, m);
    vstd::arithmetic::div_mod::lemma_mul_mod_noop_left(y, c, m);
    vstd::arithmetic::div_mod::lemma_mul_mod_noop_right(c, x, m);
    vstd::arithmetic::div_mod::lemma_mul_mod_noop_right(c, y, m);
}

/// A number is congruent to its remainder.
pub proof fn lemma_congruent_reduced(x: int)
    ensures
        congruent(x % (modulus() as int), x),
{
    lemma_modulus_large();
    vstd::arithmetic::div_mod::lemma_mod_twice(x, modulus() as int);
}

/// Congruence is kept by products.
pub proof fn lemma_congruent_product(x1: int, y1: int, x2: int, y2: int)
    requires
        congruent(x1, y1),
        congruent(x2, y2),
    ensures
        congruent(x1 * x2, y1 * y2),
{
    lemma_congruent_scaled(x1, y1, x2);
    lemma_congruent_scaled(x2, y2, y1);
}

/// `a` has a multiplicative inverse in the field.
pub open spec fn has_inverse(a: int) -> bool {
    exists|r: int| congruent(#[trigger] (r * a), 1)
}

/// Every element of the field but 0 has a multiplicative inverse: the
/// modulus is prime.
pub open spec fn field_laws() -> bool {
    forall|a: int| !congruent(a, 0) ==> #[trigger] has_inverse(a)
}

/// A product with an invertible factor is 0 only where the other factor is.
pub proof fn lemma_cancel(a: int, b: int)
    requires
        has_inverse(a),
        congruent(a * b, 0),
    ensures
        congruent(b, 0),
{
    lemma_modulus_large();
    let r = choose|r: int| congruent(#[trigger] (r * a), 1);
    lemma_congruent_scaled(r * a, 1, b);
    lemma_congruent_scaled(a * b, 0, r);
    assert((r * a) * b == r * (a * b)) by (nonlinear_arith);
    assert(1 * b == b && r * 0 == 0) by (nonlinear_arith);
}

/// A number strictly between the modulus and its negative is congruent to 0
/// only if it is 0.
pub proof fn lemma_small_not_zero(d: int)
    requires
        -(modulus() as int) < d < modulus(),
        d != 0,
    ensures
        !congruent(d, 0),
{
    lemma_modulus_large();
    let m = modulus() as int;
    vstd::arithmetic::div_mod::lemma_small_mod(0, modulus());
    if d > 0 {
        vstd::arithmetic::div_mod::lemma_small_mod(d as nat, modulus());
    } else {
        vstd::arithmetic::div_mod::lemma_mod_add_multiples_vanish(d, m);
        vstd::arithmetic::div_mod::lemma_small_mod((d + m) as nat, modulus());
    }
}

/// In a field, an inverse in the sense of `is_inverse` exists for every
/// element that is not 0.
pub proof fn lemma_field_inverse(a: nat)
    requires
        field_laws(),
        0 < a < modulus(),
    ensures
        is_inverse(field_inv(a), a),
{
    lemma_modulus_large();
    let m = modulus() as int;
    lemma_small_not_zero(a as int);
    assert(has_inverse(a as int));
    let r = choose|r: int| congruent(#[trigger] (r * (a as int)), 1);
    let w = (r % m) as nat;
    vstd::arithmetic::div_mod::lemma_mod_bound(r, m);
    vstd::arithmetic::div_mod::lemma_mul_mod_noop_left(r, a as int, m);
    vstd::arithmetic::div_mod::lemma_small_mod(1, modulus());
    assert(is_inverse(w, a));
}

/// A string of zero bytes stands for 0.
pub proof fn lemma_zero_bytes(bytes: Seq<u8>)
    requires
        forall|i: int| 0 <= i < bytes.len() ==> bytes[i] == 0,
    ensures
        le_value(bytes) == 0,
    decreases bytes.len(),
{
    if bytes.len() > 0 {
        lemma_zero_bytes(bytes.drop_first());
    }
}

/// An element has at most one inverse.
pub proof fn lemma_inverse_unique(r1: nat, r2: nat, a: nat)
    requires
        is_inverse(r1, a),
        is_inverse(r2, a),
    ensures
        r1 == r2,
{
    let m = modulus() as int;
    lemma_modulus_large();
    let (x, y, z) = (r1 as int, r2 as int, a as int);
    assert(((x * z) * y) % m == y) by {
        vstd::arithmetic::div_mod::lemma_mul_mod_noop_left(x * z, y, m);
        vstd::arithmetic::div_mod::lemma_small_mod(r2, modulus());
    }
    assert(((y * z) * x) % m == x) by {
        vstd::arithmetic::div_mod::lemma_mul_mod_noop_left(y * z, x, m);
        vstd::arithmetic::div_mod::lemma_small_mod(r1, modulus());
    }
    assert((x * z) * y == (y * z) * x) by (nonlinear_arith);
}

impl Scalar {
    #[verifier::type_invariant]
    spec fn canonical(self) -> bool {
        le_value(self.bytes@) < modulus()
    }

    /// The bytes of the canonical encoding.
    pub closed spec fn encoding(&self) -> Seq<u8> {
        self.bytes@
    }

    /// The encoding is 32 bytes long and stands for the value.
    pub proof fn lemma_encoding(&self)
        ensures
            self.encoding().len() == 32,
            le_value(self.encoding()) == self@,
    {
    }

    /// The scalar 0.
    pub fn zero() -> (r: Scalar)
        ensures
            r@ == 0,
    {
        from_integer(0)
    }

    /// The scalar 1.
    pub fn one() -> (r: Scalar)
        ensures
            r@ == 1,
    {
        from_integer(1)
    }

    /// The scalar that stands for an unsigned integer.
    pub fn from_u64(x: u64) -> (r: Scalar)
        ensures
            r@ == x,
    {
        from_integer(x)
    }

    /// The sum in the field.
    pub fn add(&self, other: &Scalar) -> (r: Scalar)
        ensures
            r@ == (self@ + other@) % modulus(),
    {
        sum_of(self, other)
    }

    /// The difference in the field.
    pub fn sub(&self, other: &Scalar) -> (r: Scalar)
        ensures
            r@ == field_sub(self@, other@),
    {
        difference_of(self, other)
    }

    /// The product in the field.
    pub fn mul(&self, other: &Scalar) -> (r: Scalar)
        ensures
            r@ == (self@ * other@) % modulus(),
    {
        product_of(self, other)
    }

    /// The additive inverse in the field.
    pub fn neg(&self) -> (r: Scalar)
        ensures
            r@ == field_neg(self@),
    {
        negative_of(self)
    }

    /// Whether two scalars are the same field element.
    pub fn equals(&self, other: &Scalar) -> (r: bool)
        ensures
            r == (self@ == other@),
    {
        same_scalar(self, other)
    }

    /// Whether the scalar is 0.
    pub fn is_zero(&self) -> (r: bool)
        ensures
            r == (self@ == 0),
    {
        let z = Scalar::zero();
        same_scalar(self, &z)
    }

    /// The multiplicative inverse, which every element but 0 has.
    pub fn invert(&self) -> (r: Option<Scalar>)
        ensures
            (self@ == 0) == r.is_none(),
            r.is_some() ==> is_inverse(r.unwrap()@, self@) && r.unwrap()@ == field_inv(self@),
    {
        if self.is_zero() {
            None
        } else {
            let inv = inverse_of(self);
            proof {
                lemma_inverse_unique(inv@, field_inv(self@), self@);
            }
            Some(inv)
        }
    }

    /// The canonical 32-byte little-endian encoding.
    pub fn to_bytes(&self) -> (r: [u8; 32])
        ensures
            r@ == self.encoding(),
            le_value(r@) == self@,
            self@ < modulus(),
    {
        proof {
            use_type_invariant(self);
        }
        self.bytes
    }

    /// Decodes a canonical encoding; any other byte string is rejected.
    pub fn from_canonical_bytes(bytes: [u8; 32]) -> (r: Option<Scalar>)
        ensures
            r.is_some() == (le_value(bytes@) < modulus()),
            r.is_some() ==> r.unwrap().encoding() == bytes@ && r.unwrap()@ == le_value(bytes@),
    {
        if is_canonical_encoding(&bytes) {
            Some(Scalar { bytes })
        } else {
            None
        }
    }

    /// Reduces a 512-bit little-endian integer into the field.
    pub fn from_bytes_mod_order_wide(bytes: &[u8; 64]) -> (r: Scalar)
        ensures
            r@ == le_value(bytes@) % modulus(),
    {
        reduce_wide(bytes)
    }

    /// Overwrites the scalar with 0.
    pub fn zeroize(&mut self)
        ensures
            final(self)@ == 0,
        opens_invariants none
        no_unwind
    {
        proof {
            lemma_zero_bytes(Seq::new(32, |i: int| 0u8));
            lemma_modulus_large();
        }
        wipe(&mut self.bytes);
    }
}

/// Calls `zeroize::Zeroize::zeroize` on the bytes, which overwrites every
/// one of them with 0 in a way that the compiler does not remove, and does
/// not panic.
#[verifier::external_body]
pub(crate) fn wipe(bytes: &mut [u8; 32])
    ensures
        final(bytes)@ == Seq::new(32, |i: int| 0u8),
    opens_invariants none
    no_unwind
{
    zeroize::Zeroize::zeroize(bytes);
}

// What follows is taken on trust from curve25519-dalek. Operands are handed
// over with `Scalar::from_canonical_bytes`, which accepts them because every
// scalar that a program holds is canonical, and results are taken back with
// `Scalar::to_bytes`, which gives the canonical encoding.

/// Calls `Scalar::from(u64)` of curve25519-dalek, which writes the integer's
/// little-endian bytes into the low eight bytes of the encoding.
#[verifier::external_body]
fn from_integer(x: u64) -> (r: Scalar)
    ensures
        r@ == x,
{
    Scalar { bytes: curve25519_dalek::scalar::Scalar::from(x).to_bytes() }
}

/// Calls curve25519-dalek's addition of scalars: the sum modulo the group order.
#[verifier::external_body]
fn sum_of(a: &Scalar, b: &Scalar) -> (r: Scalar)
    ensures
        r@ == (a@ + b@) % modulus(),
{
    let x = curve25519_dalek::scalar::Scalar::from_canonical_bytes(a.bytes).unwrap();
    let y = curve25519_dalek::scalar::Scalar::from_canonical_bytes(b.bytes).unwrap();
    Scalar { bytes: (x + y).to_bytes() }
}

/// Calls curve25519-dalek's subtraction of scalars: the difference modulo the
/// group order.
#[verifier::external_body]
fn difference_of(a: &Scalar, b: &Scalar) -> (r: Scalar)
    ensures
        r@ == (a@ - b@) % (modulus() as int),
{
    let x = curve25519_dalek::scalar::Scalar::from_canonical_bytes(a.bytes).unwrap();
    let y = curve25519_dalek::scalar::Scalar::from_canonical_bytes(b.bytes).unwrap();
    Scalar { bytes: (x - y).to_bytes() }
}

/// Calls curve25519-dalek's multiplication of scalars: the product modulo the
/// group order.
#[verifier::external_body]
fn product_of(a: &Scalar, b: &Scalar) -> (r: Scalar)
    ensures
        r@ == (a@ * b@) % modulus(),
{
    let x = curve25519_dalek::scalar::Scalar::from_canonical_bytes(a.bytes).unwrap();
    let y = curve25519_dalek::scalar::Scalar::from_canonical_bytes(b.bytes).unwrap();
    Scalar { bytes: (x * y).to_bytes() }
}

/// Calls curve25519-dalek's negation of a scalar: the additive inverse modulo
/// the group order.
#[verifier::external_body]
fn negative_of(a: &Scalar) -> (r: Scalar)
    ensures
        r@ == (-(a@ as int)) % (modulus() as int),
{
    let x = curve25519_dalek::scalar::Scalar::from_canonical_bytes(a.bytes).unwrap();
    Scalar { bytes: (-x).to_bytes() }
}

/// Calls curve25519-dalek's `Scalar::invert`, which returns the multiplicative
/// inverse of a scalar that is not 0.
#[verifier::external_body]
fn inverse_of(a: &Scalar) -> (r: Scalar)
    requires
        a@ != 0,
    ensures
        is_inverse(r@, a@),
{
    let x = curve25519_dalek::scalar::Scalar::from_canonical_bytes(a.bytes).unwrap();
    Scalar { bytes: x.invert().to_bytes() }
}

/// Calls curve25519-dalek's equality of scalars, a constant-time comparison of
/// the two canonical encodings.
#[verifier::external_body]
fn same_scalar(a: &Scalar, b: &Scalar) -> (r: bool)
    ensures
        r == (a@ == b@),
{
    let x = curve25519_dalek::scalar::Scalar::from_canonical_bytes(a.bytes).unwrap();
    let y = curve25519_dalek::scalar::Scalar::from_canonical_bytes(b.bytes).unwrap();
    x == y
}

/// Calls curve25519-dalek's `Scalar::from_canonical_bytes` and reports whether
/// it accepted the bytes, which it does exactly when they stand for an integer
/// below the group order.
#[verifier::external_body]
fn is_canonical_encoding(bytes: &[u8; 32]) -> (r: bool)
    ensures
        r == (le_value(bytes@) < modulus()),
{
    curve25519_dalek::scalar::Scalar::from_canonical_bytes(*bytes).is_some().into()
}

/// Calls curve25519-dalek's `Scalar::from_bytes_mod_order_wide`, which reduces
/// a 512-bit little-endian integer modulo the group order.
#[verifier::external_body]
fn reduce_wide(bytes: &[u8; 64]) -> (r: Scalar)
    ensures
        r@ == le_value(bytes@) % modulus(),
{
    Scalar { bytes: curve25519_dalek::scalar::Scalar::from_bytes_mod_order_wide(bytes).to_bytes() }
}

/// Calls curve25519-dalek's `Scalar::random` on the operating system's
/// generator. Nothing is known of the outcome but that it is a scalar.
#[verifier::external_body]
fn sample_scalar() -> (r: Scalar)
{
    Scalar { bytes: curve25519_dalek::scalar::Scalar::random(&mut rand::rngs::OsRng).to_bytes() }
}

/// A scalar drawn uniformly from the field by the system's secure generator.
pub fn random_scalar() -> (r: Scalar)
{
    sample_scalar()
}

} // verus!
