use threshold_sharing::enterprise::{ComplianceMode, EnterpriseConfig, EnterpriseCryptoSystem};
use threshold_sharing::error::{
    AuditLogger, CryptoError, ErrorHandler, RecoveryStrategy, SecurityEvent,
};
use threshold_sharing::hash_adapter::{Blake3Adapter, SecurityLevel};
use threshold_sharing::key_lifecycle::KeyState;
use threshold_sharing::lagrange_fft::{recover_secret_fft, LagrangeError};
use threshold_sharing::polynomial::poly_mul;
use threshold_sharing::scalar::{random_scalar, Scalar};
use threshold_sharing::sharing::{generate_key_shares, ShareData};

#[test]
fn test_error_creation() {
    let error = CryptoError::KeyGeneration { reason: "insufficient entropy".to_string() };
    assert!(error.message().contains("Key generation failed"));
}

#[test]
fn test_audit_logging() {
    let mut logger = AuditLogger::new();
    let event = SecurityEvent::KeyGenerated {
        key_id: "test-key-001".to_string(),
        timestamp: threshold_sharing::error::current_timestamp(),
    };
    logger.log_event(event);
    assert_eq!(logger.get_events().len(), 1);
}

#[test]
fn test_error_recovery() {
    let mut handler = ErrorHandler::new();
    let error = CryptoError::Timeout { operation: "key_generation".to_string(), timeout_ms: 5000 };
    let strategy = handler.handle_error(&error);
    assert!(matches!(strategy, RecoveryStrategy::Retry { .. }));
}

#[test]
fn test_blake3_adapter_basic() {
    let mut hasher = Blake3Adapter::new();
    hasher.update(b"test data");
    let result = hasher.finalize_fixed();
    assert_eq!(result.len(), 64);
}

#[test]
fn test_security_levels() {
    let standard = Blake3Adapter::new_with_security(SecurityLevel::Standard);
    let high = Blake3Adapter::new_with_security(SecurityLevel::High);
    let maximum = Blake3Adapter::new_with_security(SecurityLevel::Maximum);

    assert!(matches!(standard.security_level(), SecurityLevel::Standard));
    assert!(matches!(high.security_level(), SecurityLevel::High));
    assert!(matches!(maximum.security_level(), SecurityLevel::Maximum));
}

#[test]
fn test_keyed_hashing() {
    let key = [1u8; 32];
    let mut hasher = Blake3Adapter::new_keyed(&key);
    hasher.update(b"authenticated data");
    let result = hasher.finalize_fixed();
    assert_eq!(result.len(), 64);
}

#[test]
fn test_context_update() {
    let mut hasher = Blake3Adapter::new();
    hasher.update_with_context(b"sensitive data", "audit_trail_v1");
    let result = hasher.finalize_fixed();
    assert_eq!(result.len(), 64);
}

#[test]
fn test_polynomial_multiplication() {
    let a = vec![Scalar::one(), Scalar::one()];
    let b = vec![Scalar::one(), Scalar::one()];
    let result = poly_mul(&a, &b);

    assert_eq!(result.len(), 3);
    assert_eq!(result[0], Scalar::one());
    assert_eq!(result[1], Scalar::one().add(&Scalar::one()));
    assert_eq!(result[2], Scalar::one());
}

#[test]
fn test_secret_recovery() {
    let secret = Scalar::from_u64(42u64);
    let threshold = 3;
    let num_shares = 5;

    let shares = generate_key_shares(secret, threshold, num_shares);
    let selected_shares: Vec<_> = shares.into_iter().take(threshold).collect();

    let recovered = recover_secret_fft(&selected_shares).unwrap();
    assert_eq!(recovered, secret);
}

#[test]
fn test_error_handling() {
    let empty_shares: Vec<ShareData> = vec![];
    let result = recover_secret_fft(&empty_shares);

    assert!(matches!(result, Err(LagrangeError::InsufficientShares { .. })));
}

#[test]
fn test_performance_metrics() {
    let secret = Scalar::from_u64(123u64);
    let shares = generate_key_shares(secret, 5, 10);

    let start = std::time::Instant::now();
    let _recovered = recover_secret_fft(&shares[..5]).unwrap();
    let duration = start.elapsed();

    assert!(duration.as_millis() < 100);
}

#[test]
fn test_enterprise_config() {
    let config = EnterpriseConfig::default();
    assert!(config.audit_enabled);
    assert!(config.performance_monitoring);
    assert!(matches!(config.compliance_mode, ComplianceMode::Standard));
}

#[test]
fn test_enterprise_crypto_system() {
    let config = EnterpriseConfig::default();
    let mut system = EnterpriseCryptoSystem::new(config);

    assert!(system.validate_security().is_ok());

    let key = system.generate_enterprise_key("test-key").unwrap();
    assert!(matches!(key.state, KeyState::Active));
}

#[test]
fn test_share_operations() {
    let config = EnterpriseConfig::default();
    let mut system = EnterpriseCryptoSystem::new(config);

    let secret = random_scalar();
    let shares = system.create_secret_shares(secret, 3, 5, "test-op").unwrap();

    assert_eq!(shares.len(), 5);

    let recovered = system.recover_secret_enterprise(&shares[..3], "test-recovery").unwrap();
    assert_eq!(recovered, secret);
}
