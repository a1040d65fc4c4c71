//! Elements of the Ristretto group, kept in their canonical compressed
//! encoding, and the two generators that commitments are built on.

use vstd::prelude::*;
use vstd::string::StringSliceAdditionalSpecFns;
use crate::hash_adapter::{blake3_output, Blake3Adapter};
use crate::scalar::Scalar;

verus! {

/// Whether the 32 bytes are the canonical encoding of a group element.
pub uninterp spec fn ristretto_decodes(bytes: Seq<u8>) -> bool;

/// The encoding of the sum of the two encoded group elements.
pub uninterp spec fn ristretto_sum(a: Seq<u8>, b: Seq<u8>) -> Seq<u8>;

/// The encoding of the encoded group element multiplied by the scalar `k`.
pub uninterp spec fn ristretto_scaled(p: Seq<u8>, k: nat) -> Seq<u8>;

/// The encoding of the group element that 64 uniform bytes are mapped to.
pub uninterp spec fn ristretto_from_uniform(bytes: Seq<u8>) -> Seq<u8>;

/// The encoding of the group's standard generator `G`.
pub open spec fn generator_encoding() -> Seq<u8> {
    seq![
        0xe2u8, 0xf2, 0xae, 0x0a, 0x6a, 0xbc, 0x4e, 0x71,
        0xa8, 0x84, 0xa9, 0x61, 0xc5, 0x00, 0x51, 0x5f,
        0x58, 0xe3, 0x0b, 0x6a, 0xa5, 0x82, 0xdd, 0x8d,
        0xb6, 0xa6, 0x59, 0x45, 0xe0, 0x8d, 0x2d, 0x76,
    ]
}

/// The encoding of the neutral element: 32 zero bytes.
pub open spec fn identity_encoding() -> Seq<u8> {
    Seq::new(32, |i: int| 0u8)
}

/// The string that the second generator is derived from.
pub open spec fn second_generator_domain() -> Seq<u8> {
    "TSS-PEDERSEN-H-v1".spec_bytes()
}

/// The encoding of the second generator `H`: the domain string hashed to 64
/// bytes and mapped to the group, so that nobody knows its logarithm to base `G`.
pub open spec fn second_generator_encoding() -> Seq<u8> {
    ristretto_from_uniform(blake3_output(second_generator_domain(), 64))
}

/// The encoding of the Pedersen commitment `value * G + blinding * H`.
pub open spec fn pedersen_spec(value: nat, blinding: nat) -> Seq<u8> {
    ristretto_sum(
        ristretto_scaled(generator_encoding(), value),
        ristretto_scaled(second_generator_encoding(), blinding),
    )
}

/// A group element.
#[derive(Clone, Copy, Debug, PartialEq, Eq)]
pub struct Point {
    bytes: [u8; 32],
}

impl View for Point {
    type V = Seq<u8>;

    closed spec fn view(&self) -> Seq<u8> {
        self.bytes@
    }
}

/// Whether two 32-byte strings are equal.
pub fn bytes_equal(a: &[u8; 32], b: &[u8; 32]) -> (r: bool)
    ensures
        r == (a@ == b@),
{
    let mut same = true;
    let mut i: usize = 0;
    assert(a@.subrange(0, 0) =~= b@.subrange(0, 0));
    while i < 32
        invariant
            i <= 32,
            same == (a@.subrange(0, i as int) == b@.subrange(0, i as int)),
        decreases 32 - i,
    {
        if a[i] != b[i] {
            same = false;
        }
        proof {
            let (x, y) = (a@.subrange(0, i + 1), b@.subrange(0, i + 1));
            assert(a@.subrange(0, i as int) =~= x.drop_last());
            assert(b@.subrange(0, i as int) =~= y.drop_last());
            if a@[i as int] == b@[i as int] && x.drop_last() == y.drop_last() {
                assert(x =~= y);
            } else if a@[i as int] != b@[i as int] {
                assert(x[i as int] != y[i as int]);
            }
        }
        i += 1;
    }
    assert(a@.subrange(0, 32) =~= a@);
    assert(b@.subrange(0, 32) =~= b@);
    same
}

impl Point {
    #[verifier::type_invariant]
    spec fn valid(self) -> bool {
        ristretto_decodes(self.bytes@)
    }

    /// The standard generator `G`.
    pub fn generator() -> (r: Point)
        ensures
            r@ == generator_encoding(),
    {
        basepoint()
    }

    /// The second generator `H`.
    pub fn another_point() -> (r: Point)
        ensures
            r@ == second_generator_encoding(),
    {
        let mut hasher = Blake3Adapter::new();
        hasher.update("TSS-PEDERSEN-H-v1".as_bytes());
        assert(hasher.data() =~= second_generator_domain());
        let wide = hasher.finalize_fixed();
        uniform_point(&wide)
    }

    /// The sum of two elements.
    pub fn add(&self, other: &Point) -> (r: Point)
        ensures
            r@ == ristretto_sum(self@, other@),
    {
        point_add(self, other)
    }

    /// The element multiplied by a scalar.
    pub fn mul(&self, k: &Scalar) -> (r: Point)
        ensures
            r@ == ristretto_scaled(self@, k@),
    {
        point_mul(self, k)
    }

    /// Whether two elements are the same; the encoding is canonical, so they
    /// are exactly when their encodings are.
    pub fn equals(&self, other: &Point) -> (r: bool)
        ensures
            r == (self@ == other@),
    {
        bytes_equal(&self.bytes, &other.bytes)
    }

    /// Whether the element is the neutral element.
    pub fn is_identity(&self) -> (r: bool)
        ensures
            r == (self@ == identity_encoding()),
    {
        let zeros = [0u8; 32];
        assert(zeros@ =~= identity_encoding());
        bytes_equal(&self.bytes, &zeros)
    }

    /// The canonical encoding.
    pub fn to_bytes(&self) -> (r: [u8; 32])
        ensures
            r@ == self@,
            ristretto_decodes(self@),
    {
        proof {
            use_type_invariant(self);
        }
        self.bytes
    }

    /// Decodes a canonical encoding; any other byte string is rejected.
    pub fn from_bytes(bytes: [u8; 32]) -> (r: Option<Point>)
        ensures
            r.is_some() == ristretto_decodes(bytes@),
            r.is_some() ==> r.unwrap()@ == bytes@,
    {
        if decodes(&bytes) {
            Some(Point { bytes })
        } else {
            None
        }
    }

    /// The Pedersen commitment `value * G + blinding * H`.
    pub fn commit(value: &Scalar, blinding: &Scalar) -> (r: Point)
        ensures
            r@ == pedersen_spec(value@, blinding@),
    {
        let g = Point::generator();
        let h = Point::another_point();
        g.mul(value).add(&h.mul(blinding))
    }
}

// What follows is taken on trust from curve25519-dalek. Elements are handed
// over with `CompressedRistretto::decompress`, which accepts them because
// every element that a program holds has a valid encoding, and results are
// taken back with `RistrettoPoint::compress`, which gives the canonical
// encoding.

/// Reads curve25519-dalek's constant `RISTRETTO_BASEPOINT_COMPRESSED`, whose
/// bytes the crate's source spells out.
#[verifier::external_body]
fn basepoint() -> (r: Point)
    ensures
        r@ == generator_encoding(),
{
    Point { bytes: curve25519_dalek::constants::RISTRETTO_BASEPOINT_COMPRESSED.to_bytes() }
}

/// Calls curve25519-dalek's `CompressedRistretto::decompress` and reports
/// whether it accepted the bytes.
#[verifier::external_body]
fn decodes(bytes: &[u8; 32]) -> (r: bool)
    ensures
        r == ristretto_decodes(bytes@),
{
    curve25519_dalek::ristretto::CompressedRistretto(*bytes).decompress().is_some()
}

/// Decompresses both elements, adds them with curve25519-dalek's addition of
/// Ristretto points and compresses the sum.
#[verifier::external_body]
fn point_add(a: &Point, b: &Point) -> (r: Point)
    ensures
        r@ == ristretto_sum(a@, b@),
{
    let x = curve25519_dalek::ristretto::CompressedRistretto(a.bytes).decompress().unwrap();
    let y = curve25519_dalek::ristretto::CompressedRistretto(b.bytes).decompress().unwrap();
    Point { bytes: (x + y).compress().to_bytes() }
}

/// Decompresses the element, multiplies it by the scalar with
/// curve25519-dalek's scalar multiplication and compresses the product.
#[verifier::external_body]
fn point_mul(p: &Point, k: &Scalar) -> (r: Point)
    ensures
        r@ == ristretto_scaled(p@, k@),
{
    let x = curve25519_dalek::ristretto::CompressedRistretto(p.bytes).decompress().unwrap();
    let s = curve25519_dalek::scalar::Scalar::from_canonical_bytes(k.bytes).unwrap();
    Point { bytes: (x * s).compress().to_bytes() }
}

/// Calls curve25519-dalek's `RistrettoPoint::from_uniform_bytes` and
/// compresses the element it returns.
#[verifier::external_body]
fn uniform_point(bytes: &[u8; 64]) -> (r: Point)
    ensures
        r@ == ristretto_from_uniform(bytes@),
{
    Point {
        bytes: curve25519_dalek::ristretto::RistrettoPoint::from_uniform_bytes(bytes)
            .compress()
            .to_bytes(),
    }
}

} // verus!
