use threshold_sharing::enterprise::{EnterpriseConfig, EnterpriseCryptoSystem, enterprise_demonstration};
use threshold_sharing::error::{CryptoError, ErrorHandler, RecoveryStrategy, SecurityEvent};
use threshold_sharing::group::Point;
use threshold_sharing::hash_adapter::{Blake3Adapter, SecurityValidator};
use threshold_sharing::key_lifecycle::{Key, KeyState};
use threshold_sharing::lagrange_fft::LagrangeError;
use threshold_sharing::polynomial::{
    naive_mul, poly_add, poly_derivative, poly_evaluate, poly_mul, poly_product, poly_sub,
};
use threshold_sharing::scalar::{random_scalar, Scalar};
use threshold_sharing::schnorr::{challenge, index_bytes, prove_with_nonces, verify_proof};
use threshold_sharing::sharing::generate_key_shares;
use threshold_sharing::utils::{decimal, distributed_random_scalar, pow_scalar};

fn s(x: u64) -> Scalar {
    Scalar::from_u64(x)
}

fn poly(coeffs: &[u64]) -> Vec<Scalar> {
    coeffs.iter().map(|c| s(*c)).collect()
}

const ORDER: [u8; 32] = [
    0xed, 0xd3, 0xf5, 0x5c, 0x1a, 0x63, 0x12, 0x58, 0xd6, 0x9c, 0xf7, 0xa2, 0xde, 0xf9, 0xde, 0x14,
    0x00, 0x00, 0x00, 0x00, 0x00, 0x00, 0x00, 0x00, 0x00, 0x00, 0x00, 0x00, 0x00, 0x00, 0x00, 0x10,
];

#[test]
fn scalar_arithmetic() {
    assert_eq!(s(6).mul(&s(7)), s(42));
    assert_eq!(s(40).add(&s(2)), s(42));
    assert_eq!(s(50).sub(&s(8)), s(42));
    assert_eq!(s(3).sub(&s(5)).add(&s(5)), s(3));
    assert_eq!(s(9).neg().add(&s(9)), Scalar::zero());
    assert_ne!(s(9).neg(), s(9));
    assert!(s(5).equals(&s(5)));
    assert!(!s(5).equals(&s(6)));
    assert!(Scalar::zero().is_zero());
    assert!(!Scalar::one().is_zero());
}

#[test]
fn scalar_inverse() {
    let x = s(123456789);
    let inv = x.invert().unwrap();
    assert_eq!(x.mul(&inv), Scalar::one());
    assert_ne!(inv, x);
    assert_eq!(Scalar::zero().invert(), None);
    assert_eq!(Scalar::one().invert(), Some(Scalar::one()));
}

#[test]
fn scalar_encoding() {
    let mut bytes = [0u8; 32];
    bytes[0] = 42;
    assert_eq!(s(42).to_bytes(), bytes);
    assert_eq!(Scalar::from_canonical_bytes(bytes), Some(s(42)));
    bytes[1] = 1;
    assert_eq!(Scalar::from_canonical_bytes(bytes), Some(s(298)));
    // the group order itself is not canonical; the order less one is
    assert_eq!(Scalar::from_canonical_bytes(ORDER), None);
    let mut below = ORDER;
    below[0] = 0xec;
    assert_eq!(Scalar::from_canonical_bytes(below), Some(Scalar::one().neg()));
    assert_eq!(Scalar::from_canonical_bytes([0xff; 32]), None);
}

#[test]
fn scalar_wide_reduction() {
    let mut wide = [0u8; 64];
    wide[0] = 9;
    assert_eq!(Scalar::from_bytes_mod_order_wide(&wide), s(9));
    let mut order = [0u8; 64];
    order[..32].copy_from_slice(&ORDER);
    assert_eq!(Scalar::from_bytes_mod_order_wide(&order), Scalar::zero());
    order[0] = 0xee;
    assert_eq!(Scalar::from_bytes_mod_order_wide(&order), Scalar::one());
}

#[test]
fn scalar_zeroize() {
    let mut x = random_scalar();
    x.zeroize();
    assert_eq!(x.to_bytes(), [0u8; 32]);
}

#[test]
fn random_scalars_differ() {
    assert_ne!(random_scalar(), random_scalar());
}

#[test]
fn powers() {
    assert_eq!(pow_scalar(s(2), 10), s(1024));
    assert_eq!(pow_scalar(s(3), 0), Scalar::one());
    assert_eq!(pow_scalar(s(0), 0), Scalar::one());
    assert_eq!(pow_scalar(s(0), 5), Scalar::zero());
    assert_eq!(pow_scalar(s(7), 1), s(7));
    assert_eq!(pow_scalar(s(3), 13), s(1594323));
    let x = s(987654321);
    let mut by_hand = Scalar::one();
    for _ in 0..77 {
        by_hand = by_hand.mul(&x);
    }
    assert_eq!(pow_scalar(x, 77), by_hand);
}

#[test]
fn aggregated_randomness_is_the_sum() {
    assert_eq!(distributed_random_scalar(&[s(1), s(2), s(3)]), s(6));
    assert_eq!(distributed_random_scalar(&[]), Scalar::zero());
    let a = random_scalar();
    assert_eq!(distributed_random_scalar(&[a, a.neg()]), Scalar::zero());
}

#[test]
fn decimal_numerals() {
    assert_eq!(decimal(0), "0");
    assert_eq!(decimal(7), "7");
    assert_eq!(decimal(10), "10");
    assert_eq!(decimal(5000), "5000");
    assert_eq!(decimal(u64::MAX), "18446744073709551615");
}

#[test]
fn polynomial_sum_and_difference() {
    assert_eq!(poly_add(&poly(&[1, 2, 3]), &poly(&[10, 20])), poly(&[11, 22, 3]));
    assert_eq!(poly_add(&poly(&[]), &poly(&[4])), poly(&[4]));
    assert_eq!(poly_add(&poly(&[]), &poly(&[])), poly(&[]));
    assert_eq!(poly_sub(&poly(&[11, 22, 3]), &poly(&[10, 20])), poly(&[1, 2, 3]));
    assert_eq!(poly_sub(&poly(&[1]), &poly(&[1, 1])), vec![s(0), s(1).neg()]);
}

#[test]
fn polynomial_product() {
    // (1 + 2x)(3 + 4x + 5x^2) = 3 + 10x + 13x^2 + 10x^3
    assert_eq!(poly_mul(&poly(&[1, 2]), &poly(&[3, 4, 5])), poly(&[3, 10, 13, 10]));
    assert_eq!(naive_mul(&poly(&[3, 4, 5]), &poly(&[1, 2])), poly(&[3, 10, 13, 10]));
    assert_eq!(poly_mul(&poly(&[2]), &poly(&[21])), poly(&[42]));
    assert_eq!(poly_mul(&poly(&[]), &poly(&[1, 2, 3])), poly(&[0, 0]));
    assert_eq!(poly_mul(&poly(&[]), &poly(&[])), poly(&[]));
}

#[test]
fn polynomial_product_of_many() {
    assert_eq!(poly_product(&[]), poly(&[1]));
    assert_eq!(poly_product(&[poly(&[4, 5])]), poly(&[4, 5]));
    // (1 + x)^3
    let f = poly(&[1, 1]);
    assert_eq!(poly_product(&[f.clone(), f.clone(), f.clone()]), poly(&[1, 3, 3, 1]));
    // (1 + x)(2 + x)(3 + x)(4 + x)(5 + x)
    let factors: Vec<Vec<Scalar>> = (1..=5u64).map(|c| poly(&[c, 1])).collect();
    assert_eq!(poly_product(&factors), poly(&[120, 274, 225, 85, 15, 1]));
}

#[test]
fn polynomial_derivative_and_value() {
    assert_eq!(poly_derivative(&poly(&[5, 2, 1, 4])), poly(&[2, 2, 12]));
    assert_eq!(poly_derivative(&poly(&[5])), poly(&[0]));
    assert_eq!(poly_derivative(&poly(&[])), poly(&[0]));
    // 5 + 2x + x^2 at 3
    assert_eq!(poly_evaluate(&poly(&[5, 2, 1]), s(3)), s(20));
    assert_eq!(poly_evaluate(&poly(&[]), s(3)), s(0));
    assert_eq!(poly_evaluate(&poly(&[5, 2, 1]), s(0)), s(5));
}

#[test]
fn product_and_evaluation_agree() {
    let a = vec![random_scalar(), random_scalar(), random_scalar()];
    let b = vec![random_scalar(), random_scalar()];
    let x = random_scalar();
    let left = poly_evaluate(&poly_mul(&a, &b), x);
    let right = poly_evaluate(&a, x).mul(&poly_evaluate(&b, x));
    assert_eq!(left, right);
}

#[test]
fn group_elements() {
    let g = Point::generator();
    assert_eq!(
        g.to_bytes(),
        [
            0xe2, 0xf2, 0xae, 0x0a, 0x6a, 0xbc, 0x4e, 0x71, 0xa8, 0x84, 0xa9, 0x61, 0xc5, 0x00,
            0x51, 0x5f, 0x58, 0xe3, 0x0b, 0x6a, 0xa5, 0x82, 0xdd, 0x8d, 0xb6, 0xa6, 0x59, 0x45,
            0xe0, 0x8d, 0x2d, 0x76,
        ]
    );
    let h = Point::another_point();
    assert!(!g.equals(&h));
    assert!(h.equals(&Point::another_point()));
    assert!(!h.is_identity());
    assert!(g.add(&g).equals(&g.mul(&s(2))));
    assert!(!g.add(&g).equals(&g));
    assert!(g.mul(&Scalar::zero()).is_identity());
    assert_eq!(g.mul(&Scalar::zero()).to_bytes(), [0u8; 32]);
    assert!(g.mul(&s(3)).add(&g.mul(&s(4))).equals(&g.mul(&s(7))));
    assert_eq!(Point::from_bytes(g.to_bytes()), Some(g));
    assert_eq!(Point::from_bytes([0xff; 32]), None);
    let mut odd = [0u8; 32];
    odd[0] = 1;
    assert_eq!(Point::from_bytes(odd), None);
}

#[test]
fn commitments() {
    let g = Point::generator();
    let h = Point::another_point();
    let c = Point::commit(&s(5), &s(9));
    assert!(c.equals(&g.mul(&s(5)).add(&h.mul(&s(9)))));
    assert!(!c.equals(&Point::commit(&s(5), &s(10))));
    assert!(!c.equals(&Point::commit(&s(6), &s(9))));
}

#[test]
fn challenge_depends_on_every_part() {
    let c = Point::commit(&s(1), &s(2));
    let t = Point::commit(&s(3), &s(4));
    let e = challenge(&c, &t, 1);
    assert_eq!(e, challenge(&c, &t, 1));
    assert_ne!(e, challenge(&c, &t, 2));
    assert_ne!(e, challenge(&t, &c, 1));
    assert_ne!(e, challenge(&c, &c, 1));
    // the challenge is the hash of the transcript, reduced
    let mut transcript = b"TSS-SCHNORR-v1".to_vec();
    transcript.push(0);
    transcript.extend_from_slice(&Point::generator().to_bytes());
    transcript.extend_from_slice(&Point::another_point().to_bytes());
    transcript.extend_from_slice(&c.to_bytes());
    transcript.extend_from_slice(&t.to_bytes());
    transcript.extend_from_slice(&1u64.to_le_bytes());
    let mut hasher = Blake3Adapter::new();
    hasher.update(&transcript);
    assert_eq!(e, Scalar::from_bytes_mod_order_wide(&hasher.finalize_fixed()));
}

#[test]
fn index_bytes_are_little_endian() {
    assert_eq!(index_bytes(1), vec![1, 0, 0, 0, 0, 0, 0, 0]);
    assert_eq!(index_bytes(0x0102030405060708), vec![8, 7, 6, 5, 4, 3, 2, 1]);
    assert_eq!(index_bytes(u64::MAX), vec![0xff; 8]);
}

#[test]
fn proof_from_given_nonces() {
    let (share, random, u, v) = (s(11), s(12), s(13), s(14));
    let commitment = Point::commit(&share, &random);
    let proof = prove_with_nonces(share, random, 3, commitment, u, v);
    assert!(proof.t.equals(&Point::commit(&u, &v)));
    let e = challenge(&commitment, &proof.t, 3);
    assert_eq!(proof.z_s, u.add(&e.mul(&share)));
    assert_eq!(proof.z_r, v.add(&e.mul(&random)));
    assert!(verify_proof(&proof, commitment, 3));
    assert!(!verify_proof(&proof, commitment, 4));
    assert!(!verify_proof(&proof, Point::commit(&s(12), &random), 3));
}

#[test]
fn hashing_known_answers() {
    let hasher = Blake3Adapter::new();
    let mut out = [0u8; 32];
    hasher.finalize_extended(&mut out);
    assert_eq!(
        out,
        [
            0xaf, 0x13, 0x49, 0xb9, 0xf5, 0xf9, 0xa1, 0xa6, 0xa0, 0x40, 0x4d, 0xea, 0x36, 0xdc,
            0xc9, 0x49, 0x9b, 0xcb, 0x25, 0xc9, 0xad, 0xc1, 0x12, 0xb7, 0xcc, 0x9a, 0x93, 0xca,
            0xe4, 0x1f, 0x32, 0x62,
        ]
    );
    let wide = hasher.finalize_fixed();
    assert_eq!(&wide[..32], &out[..]);
    let mut none: [u8; 0] = [];
    hasher.finalize_extended(&mut none);
}

#[test]
fn hashing_modes_differ() {
    let mut plain = Blake3Adapter::new();
    let mut keyed = Blake3Adapter::new_keyed(&[7u8; 32]);
    let mut other_key = Blake3Adapter::new_keyed(&[8u8; 32]);
    let mut derived = Blake3Adapter::new_derive_key("context one");
    let mut other_context = Blake3Adapter::new_derive_key("context two");
    plain.update(b"abc");
    keyed.update(b"abc");
    other_key.update(b"abc");
    derived.update(b"abc");
    other_context.update(b"abc");
    let outs = [
        plain.finalize_fixed(),
        keyed.finalize_fixed(),
        other_key.finalize_fixed(),
        derived.finalize_fixed(),
        other_context.finalize_fixed(),
    ];
    for i in 0..outs.len() {
        for j in 0..i {
            assert_ne!(outs[i], outs[j]);
        }
    }
}

#[test]
fn hashing_accumulates() {
    let mut a = Blake3Adapter::new();
    a.update(b"hello ");
    a.add_data(b"world");
    let mut b = Blake3Adapter::new();
    b.update(b"hello world");
    assert_eq!(a.get_accumulated_data(), b"hello world");
    assert_eq!(a.finalize_fixed(), b.finalize_fixed());
    let mut c = Blake3Adapter::new();
    c.update_with_context(b"data", "ctx");
    assert_eq!(c.get_accumulated_data(), b"ctx\0data");
    c.reset();
    assert_eq!(c.get_accumulated_data(), b"");
    assert_eq!(c.finalize_fixed(), Blake3Adapter::default().finalize_fixed());
}

#[test]
fn validator() {
    assert_eq!(SecurityValidator::validate_security_properties(), Ok(()));
    let _nanos = SecurityValidator::benchmark_performance();
}

#[test]
fn error_messages() {
    let e = CryptoError::Timeout { operation: "key_generation".to_string(), timeout_ms: 5000 };
    assert_eq!(e.message(), "Timeout occurred: operation key_generation timed out after 5000ms");
    let e = CryptoError::InsufficientEntropy { required: 256, actual: 12 };
    assert_eq!(e.message(), "Insufficient entropy: required 256, got 12");
    let e = CryptoError::Validation { field: "threshold".to_string(), reason: "bad".to_string() };
    assert_eq!(e.message(), "Validation failed: threshold - bad");
    let e = CryptoError::ResourceExhaustion { resource: "share_count".to_string() };
    assert_eq!(e.message(), "Resource exhaustion: share_count limit exceeded");
    let e = CryptoError::InvalidKeyStateTransition { from: "a".to_string(), to: "b".to_string() };
    assert_eq!(e.message(), "Invalid key state transition: a -> b");
    let e = CryptoError::Configuration { parameter: "p".to_string(), issue: "i".to_string() };
    assert_eq!(e.message(), "Configuration error: p - i");
    assert_eq!(
        CryptoError::Network { details: "down".to_string() }.message(),
        "Network error: down"
    );
    assert_eq!(
        CryptoError::Serialization { details: "x".to_string() }.message(),
        "Serialization error: x"
    );
    assert_eq!(
        CryptoError::CryptographicOperation { operation: "op".to_string() }.message(),
        "Cryptographic operation failed: op"
    );
    assert_eq!(
        LagrangeError::InsufficientShares { needed: 3, provided: 2 }.message(),
        "Insufficient shares: need at least 3, got 2"
    );
    assert_eq!(
        LagrangeError::InvalidShareIndex { index: 0 }.message(),
        "Invalid share index: 0 (must be non-zero)"
    );
    assert_eq!(
        LagrangeError::DuplicateShareIndex { index: 12 }.message(),
        "Duplicate share index: 12"
    );
    assert_eq!(LagrangeError::ZeroDerivative { index: 4 }.message(), "Zero derivative at share 4");
    assert_eq!(
        LagrangeError::PolynomialDegreeTooHigh { degree: 99 }.message(),
        "Polynomial degree too high: 99"
    );
    assert_eq!(LagrangeError::NumericalInstability.message(), "Numerical instability detected");
}

#[test]
fn recovery_strategies() {
    let mut handler = ErrorHandler::default();
    let e = CryptoError::KeyGeneration { reason: "r".to_string() };
    assert_eq!(handler.handle_error(&e), RecoveryStrategy::Retry { max_attempts: 3 });
    assert_eq!(handler.audit_logger.get_events().len(), 1);
    match &handler.audit_logger.get_events()[0] {
        SecurityEvent::PolicyViolation { policy, violation, .. } => {
            assert_eq!(policy, "key_generation");
            assert_eq!(violation, "Key generation failed: r");
        }
        other => panic!("unexpected event {:?}", other),
    }
    let e = CryptoError::SecurityViolation { details: "d".to_string() };
    assert_eq!(handler.handle_error(&e), RecoveryStrategy::Abort);
    match &handler.audit_logger.get_events()[1] {
        SecurityEvent::UnauthorizedAccess { attempt, .. } => {
            assert_eq!(attempt, "Security violation: d");
        }
        other => panic!("unexpected event {:?}", other),
    }
    let e = CryptoError::Timeout { operation: "o".to_string(), timeout_ms: 1 };
    assert_eq!(handler.handle_error(&e), RecoveryStrategy::Retry { max_attempts: 2 });
    let e = CryptoError::Network { details: "d".to_string() };
    assert_eq!(
        handler.handle_error(&e),
        RecoveryStrategy::Fallback { alternative: "safe_mode".to_string() }
    );
    assert_eq!(handler.audit_logger.get_events().len(), 2);
}

#[test]
fn key_life_cycle() {
    let mut key = Key::new(s(5));
    assert_eq!(key.state, KeyState::Generated);
    assert_eq!(key.activation_time, None);
    key.activate();
    assert_eq!(key.state, KeyState::Active);
    assert!(key.activation_time.is_some());
    key.retire();
    assert_eq!(key.state, KeyState::Retired);
    assert!(key.retirement_time.is_some());
    assert_eq!(key.secret, s(5));
    key.destroy();
    assert_eq!(key.state, KeyState::Destroyed);
    assert_eq!(key.secret.to_bytes(), [0u8; 32]);
}

#[test]
fn share_record_zeroize() {
    let mut record = generate_key_shares(s(42), 2, 2)[0].clone();
    let commitment = record.commitment;
    record.zeroize();
    assert_eq!(record.share.to_bytes(), [0u8; 32]);
    assert_eq!(record.random.to_bytes(), [0u8; 32]);
    assert_eq!(record.index, 1);
    assert_eq!(record.commitment, commitment);
}

#[test]
fn service_refuses_bad_requests() {
    let mut system = EnterpriseCryptoSystem::new(EnterpriseConfig::default());
    assert_eq!(
        system.create_secret_shares(s(1), 6, 5, "op").unwrap_err(),
        CryptoError::Validation {
            field: "threshold".to_string(),
            reason: "threshold 6 exceeds num_shares 5".to_string(),
        }
    );
    assert_eq!(
        system.create_secret_shares(s(1), 3, 1001, "op").unwrap_err(),
        CryptoError::ResourceExhaustion { resource: "share_count".to_string() }
    );
    assert_eq!(
        system.create_secret_shares(s(1), 0, 5, "op").unwrap_err(),
        CryptoError::Validation {
            field: "threshold".to_string(),
            reason: "threshold must be at least 1".to_string(),
        }
    );
    assert_eq!(system.get_performance_metrics().len(), 0);
    let mut small = EnterpriseConfig::default();
    small.max_shares = 4;
    let mut system = EnterpriseCryptoSystem::new(small);
    assert_eq!(
        system.create_secret_shares(s(1), 2, 5, "op").unwrap_err(),
        CryptoError::ResourceExhaustion { resource: "share_count".to_string() }
    );
    assert_eq!(system.create_secret_shares(s(1), 2, 4, "op").unwrap().len(), 4);
}

#[test]
fn hasher_zeroize() {
    let mut keyed = Blake3Adapter::new_keyed(&[9u8; 32]);
    keyed.update(b"secret input");
    keyed.zeroize();
    assert_eq!(keyed.get_accumulated_data(), b"");
    assert_eq!(keyed.finalize_fixed(), Blake3Adapter::new_keyed(&[0u8; 32]).finalize_fixed());
    let mut plain = Blake3Adapter::new();
    plain.update(b"abc");
    plain.zeroize();
    assert_eq!(plain.finalize_fixed(), Blake3Adapter::new().finalize_fixed());
}

#[test]
fn service_records_and_audits() {
    let mut system = EnterpriseCryptoSystem::new(EnterpriseConfig::default());
    let key = system.generate_enterprise_key("k1").unwrap();
    assert_eq!(system.get_audit_events().len(), 2);
    assert!(matches!(&system.get_audit_events()[0], SecurityEvent::KeyGenerated { key_id, .. } if key_id == "k1"));
    assert!(matches!(&system.get_audit_events()[1], SecurityEvent::KeyActivated { key_id, .. } if key_id == "k1"));
    let shares = system.create_secret_shares(key.secret, 2, 3, "op").unwrap();
    let mut bent = shares.clone();
    bent[0].proof.z_s = bent[0].proof.z_s.add(&Scalar::one());
    assert_eq!(
        system.recover_secret_enterprise(&bent[..2], "op").unwrap_err(),
        CryptoError::CryptographicOperation { operation: "share_validation".to_string() }
    );
    assert_eq!(
        system.recover_secret_enterprise(&[], "op").unwrap_err(),
        CryptoError::CryptographicOperation {
            operation: "secret_recovery: Insufficient shares: need at least 1, got 0".to_string(),
        }
    );
    assert_eq!(system.recover_secret_enterprise(&shares[1..], "op"), Ok(key.secret));
    let metrics = system.get_performance_metrics();
    assert_eq!(metrics.len(), 3);
    assert_eq!(metrics[0].operation_type, "key_generation");
    assert_eq!(metrics[1].operation_type, "share_generation");
    assert_eq!(metrics[1].input_size, 3);
    assert_eq!(metrics[2].operation_type, "secret_recovery");
    assert_eq!(metrics[2].algorithm_used, "lagrange_fft");
    let mut quiet = EnterpriseConfig::default();
    quiet.performance_monitoring = false;
    let mut system = EnterpriseCryptoSystem::new(quiet);
    system.generate_enterprise_key("k2").unwrap();
    assert_eq!(system.get_performance_metrics().len(), 0);
}

#[test]
fn demonstration_runs() {
    assert_eq!(enterprise_demonstration(), Ok(()));
}
