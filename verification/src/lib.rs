//! Verifiable threshold secret sharing over the Ristretto group.
//!
//! A secret of the scalar field is split into shares, any threshold of which
//! reconstruct it. Every share carries a Pedersen commitment and a
//! Schnorr-style proof that binds share, blinding, index and commitment, so
//! that anyone can check a share without learning it. Shares can be
//! refreshed, reshared under another threshold, and dealt by several parties.
//!
//! Scalars and compressed group elements are held as plain bytes. The
//! arithmetic of the curve is called through a handful of functions whose
//! contracts are taken on trust; everything else is stated over the integers
//! modulo the group order and proved: polynomial arithmetic with Karatsuba
//! multiplication, Lagrange coefficients and reconstruction, the share life
//! cycle, the textual forms, and the laws that tie them together.

pub mod coefficients;
pub mod enterprise;
pub mod error;
pub mod group;
pub mod hash_adapter;
pub mod interpolation;
pub mod karatsuba;
pub mod key_lifecycle;
pub mod lagrange_fft;
pub mod mpc;
pub mod polynomial;
pub mod scalar;
pub mod schnorr;
pub mod serialization;
pub mod sharing;
pub mod timing;
pub mod utils;
pub mod vss;
