//! Non-interactive proofs of knowledge of a commitment's opening, bound to
//! the index of the share that the commitment belongs to.

use vstd::prelude::*;
use vstd::string::StringSliceAdditionalSpecFns;
use crate::group::{
    generator_encoding, identity_encoding, pedersen_spec, ristretto_scaled, ristretto_sum,
    second_generator_encoding, Point,
};
use crate::hash_adapter::{append_bytes, blake3_output, Blake3Adapter};
use crate::scalar::{le_value, modulus, random_scalar, Scalar};

verus! {

/// The first `n` bytes of the little-endian encoding of `x`.
pub open spec fn le_bytes(x: nat, n: nat) -> Seq<u8>
    decreases n,
{
    if n == 0 {
        Seq::empty()
    } else {
        seq![(x % 256) as u8] + le_bytes(x / 256, (n - 1) as nat)
    }
}

/// The string that separates this protocol's challenges from other hashes.
pub open spec fn challenge_domain() -> Seq<u8> {
    "TSS-SCHNORR-v1".spec_bytes() + seq![0u8]
}

/// The bytes that the challenge is the hash of: the domain, both generators,
/// the commitment, the prover's first message and the index.
pub open spec fn transcript_spec(commitment: Seq<u8>, nonce_point: Seq<u8>, index: nat) -> Seq<u8> {
    challenge_domain() + generator_encoding() + second_generator_encoding() + commitment
        + nonce_point + le_bytes(index, 8)
}

/// The challenge: 64 bytes of hash output read as a little-endian integer and
/// reduced into the field.
pub open spec fn challenge_spec(commitment: Seq<u8>, nonce_point: Seq<u8>, index: nat) -> nat {
    le_value(blake3_output(transcript_spec(commitment, nonce_point, index), 64)) % modulus()
}

/// The response `nonce + challenge * secret` in the field.
pub open spec fn response_spec(nonce: nat, challenge: nat, secret: nat) -> nat {
    (nonce + (challenge * secret) % modulus()) % modulus()
}

/// A proof `(T, z_s, z_r)` that the prover knows the opening of a commitment.
#[derive(Clone, Copy, Debug, PartialEq, Eq)]
pub struct Proof {
    /// The prover's first message `T = u * G + v * H`.
    pub t: Point,
    /// The response for the committed value.
    pub z_s: Scalar,
    /// The response for the blinding.
    pub z_r: Scalar,
}

/// Whether `proof` is the one that the nonces `u` and `v` give for the
/// opening `(share, random)` of `commitment` at `index`.
pub open spec fn is_proof_with(
    proof: Proof,
    share: nat,
    random: nat,
    index: nat,
    commitment: Seq<u8>,
    u: nat,
    v: nat,
) -> bool {
    let e = challenge_spec(commitment, pedersen_spec(u, v), index);
    &&& proof.t@ == pedersen_spec(u, v)
    &&& proof.z_s@ == response_spec(u, e, share)
    &&& proof.z_r@ == response_spec(v, e, random)
}

/// Whether the verifier accepts `proof` for `commitment` at `index`: the
/// first message is not the neutral element and
/// `z_s * G + z_r * H == T + e * C`.
pub open spec fn accepts_spec(proof: Proof, commitment: Seq<u8>, index: nat) -> bool {
    let e = challenge_spec(commitment, proof.t@, index);
    &&& proof.t@ != identity_encoding()
    &&& pedersen_spec(proof.z_s@, proof.z_r@) == ristretto_sum(
        proof.t@,
        ristretto_scaled(commitment, e),
    )
}

/// The eight little-endian bytes of `x`.
pub fn index_bytes(x: u64) -> (r: Vec<u8>)
    ensures
        r@ == le_bytes(x as nat, 8),
{
    let mut out: Vec<u8> = Vec::new();
    let mut rest: u64 = x;
    let mut i: usize = 0;
    while i < 8
        invariant
            i <= 8,
            out@ + le_bytes(rest as nat, (8 - i) as nat) == le_bytes(x as nat, 8),
        decreases 8 - i,
    {
        let ghost before = out@;
        out.push((rest % 256) as u8);
        proof {
            let tail = le_bytes((rest / 256) as nat, (8 - i - 1) as nat);
            assert(le_bytes(rest as nat, (8 - i) as nat) == seq![(rest % 256) as u8] + tail);
            assert(out@ + tail =~= before + (seq![(rest % 256) as u8] + tail));
        }
        rest = rest / 256;
        i += 1;
    }
    assert(out@ + le_bytes(rest as nat, 0) =~= out@);
    out
}

/// The challenge for a commitment, a first message and an index.
pub fn challenge(commitment: &Point, nonce_point: &Point, index: u64) -> (r: Scalar)
    ensures
        r@ == challenge_spec(commitment@, nonce_point@, index as nat),
{
    let mut transcript: Vec<u8> = Vec::new();
    append_bytes(&mut transcript, "TSS-SCHNORR-v1".as_bytes());
    transcript.push(0u8);
    let g = Point::generator().to_bytes();
    let h = Point::another_point().to_bytes();
    let c = commitment.to_bytes();
    let t = nonce_point.to_bytes();
    append_bytes(&mut transcript, g.as_slice());
    append_bytes(&mut transcript, h.as_slice());
    append_bytes(&mut transcript, c.as_slice());
    append_bytes(&mut transcript, t.as_slice());
    let idx = index_bytes(index);
    append_bytes(&mut transcript, idx.as_slice());
    assert(transcript@ =~= transcript_spec(commitment@, nonce_point@, index as nat));
    let mut hasher = Blake3Adapter::new();
    hasher.update(transcript.as_slice());
    assert(hasher.data() =~= transcript@);
    let wide = hasher.finalize_fixed();
    Scalar::from_bytes_mod_order_wide(&wide)
}

/// The proof that the nonces `u` and `v` give.
pub fn prove_with_nonces(
    share: Scalar,
    random: Scalar,
    index: usize,
    commitment: Point,
    u: Scalar,
    v: Scalar,
) -> (r: Proof)
    ensures
        is_proof_with(r, share@, random@, index as nat, commitment@, u@, v@),
{
    let t = Point::commit(&u, &v);
    let e = challenge(&commitment, &t, index as u64);
    let z_s = u.add(&e.mul(&share));
    let z_r = v.add(&e.mul(&random));
    Proof { t, z_s, z_r }
}

/// A proof for the opening `(share, random)` of `commitment` at `index`, made
/// with two fresh random nonces.
pub fn generate_proof(share: Scalar, random: Scalar, index: usize, commitment: Point) -> (r: Proof)
    ensures
        exists|u: nat, v: nat|
            is_proof_with(r, share@, random@, index as nat, commitment@, u, v),
{
    let u = random_scalar();
    let v = random_scalar();
    prove_with_nonces(share, random, index, commitment, u, v)
}

/// Whether the proof is accepted for the commitment and the index.
pub fn verify_proof(proof: &Proof, commitment: Point, index: usize) -> (r: bool)
    ensures
        r == accepts_spec(*proof, commitment@, index as nat),
{
    if proof.t.is_identity() {
        return false;
    }
    let e = challenge(&commitment, &proof.t, index as u64);
    let lhs = Point::commit(&proof.z_s, &proof.z_r);
    let rhs = proof.t.add(&commitment.mul(&e));
    lhs.equals(&rhs)
}

/// The laws of a module over the scalar field, stated of the named group
/// operations: addition is commutative and associative, and multiplication
/// by scalars distributes over both additions and composes.
pub open spec fn module_laws() -> bool {
    &&& forall|p: Seq<u8>, q: Seq<u8>| #[trigger] ristretto_sum(p, q) == ristretto_sum(q, p)
    &&& forall|p: Seq<u8>, q: Seq<u8>, r: Seq<u8>|
        #[trigger] ristretto_sum(ristretto_sum(p, q), r) == ristretto_sum(p, ristretto_sum(q, r))
    &&& forall|p: Seq<u8>, a: nat, b: nat|
        ristretto_scaled(p, (a + b) % modulus()) == ristretto_sum(
            #[trigger] ristretto_scaled(p, a),
            #[trigger] ristretto_scaled(p, b),
        )
    &&& forall|p: Seq<u8>, q: Seq<u8>, a: nat|
        #[trigger] ristretto_scaled(ristretto_sum(p, q), a) == ristretto_sum(
            ristretto_scaled(p, a),
            ristretto_scaled(q, a),
        )
    &&& forall|p: Seq<u8>, a: nat, b: nat|
        #[trigger] ristretto_scaled(ristretto_scaled(p, a), b) == ristretto_scaled(
            p,
            (a * b) % modulus(),
        )
}

proof fn lemma_sums_interchange(a: Seq<u8>, b: Seq<u8>, c: Seq<u8>, d: Seq<u8>)
    requires
        module_laws(),
    ensures
        ristretto_sum(ristretto_sum(a, b), ristretto_sum(c, d)) == ristretto_sum(
            ristretto_sum(a, c),
            ristretto_sum(b, d),
        ),
{
    let bcd = ristretto_sum(b, ristretto_sum(c, d));
    let cbd = ristretto_sum(c, ristretto_sum(b, d));
    assert(ristretto_sum(ristretto_sum(a, b), ristretto_sum(c, d)) == ristretto_sum(a, bcd));
    assert(bcd == ristretto_sum(ristretto_sum(b, c), d));
    assert(ristretto_sum(b, c) == ristretto_sum(c, b));
    assert(ristretto_sum(ristretto_sum(c, b), d) == cbd);
    assert(ristretto_sum(ristretto_sum(a, c), ristretto_sum(b, d)) == ristretto_sum(a, cbd));
}

/// Completeness of the protocol: where the group operations obey the laws
/// of a module over the field, the proof that an honest prover makes for
/// the opening of a commitment is accepted, unless its first message is the
/// neutral element.
pub proof fn lemma_honest_proof_accepted(
    proof: Proof,
    share: nat,
    random: nat,
    index: nat,
    u: nat,
    v: nat,
)
    requires
        module_laws(),
        is_proof_with(proof, share, random, index, pedersen_spec(share, random), u, v),
        proof.t@ != identity_encoding(),
    ensures
        accepts_spec(proof, pedersen_spec(share, random), index),
{
    let (g, h) = (generator_encoding(), second_generator_encoding());
    let commitment = pedersen_spec(share, random);
    let e = challenge_spec(commitment, proof.t@, index);
    let (es, er) = ((e * share) % modulus(), (e * random) % modulus());
    let (gu, hv) = (ristretto_scaled(g, u), ristretto_scaled(h, v));
    let (gs, hr) = (ristretto_scaled(g, share), ristretto_scaled(h, random));
    let (gse, hre) = (ristretto_scaled(gs, e), ristretto_scaled(hr, e));
    assert(share * e == e * share && random * e == e * random) by (nonlinear_arith);
    assert(gse == ristretto_scaled(g, es));
    assert(hre == ristretto_scaled(h, er));
    assert(ristretto_scaled(g, proof.z_s@) == ristretto_sum(gu, ristretto_scaled(g, es)));
    assert(ristretto_scaled(h, proof.z_r@) == ristretto_sum(hv, ristretto_scaled(h, er)));
    assert(ristretto_scaled(commitment, e) == ristretto_sum(gse, hre));
    lemma_sums_interchange(gu, gse, hv, hre);
}

} // verus!
