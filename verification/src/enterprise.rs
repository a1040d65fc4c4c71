//! The service around the sharing scheme: validated issuing and
//! reconstruction with an audit trail and measurements.

use vstd::prelude::*;
use vstd::string::StringExecFns;
use crate::error::{current_timestamp, CryptoError, CryptoResult, ErrorHandler, SecurityEvent};
use crate::hash_adapter::{SecurityLevel, SecurityValidator};
use crate::key_lifecycle::{Key, KeyState};
use crate::lagrange_fft::{recover_secret_fft, recover_spec, LagrangeError, PerformanceMetrics};
use crate::scalar::{random_scalar, Scalar};
use crate::sharing::{generate_key_shares, numbered_and_consistent, shares_of_polynomial, ShareData};
use crate::timing::Stopwatch;
use crate::utils::{decimal, decimal_spec};
use crate::vss::{share_verifies, verify_share_validity};

verus! {

/// The regulatory regime the service is run under.
#[derive(Clone, Debug, PartialEq, Eq)]
pub enum ComplianceMode {
    Standard,
    Fips140L3,
    CommonCriteriaEAL4Plus,
    Custom(String),
}

/// The settings of the service.
#[derive(Clone, Debug)]
pub struct EnterpriseConfig {
    pub security_level: SecurityLevel,
    pub audit_enabled: bool,
    pub performance_monitoring: bool,
    pub compliance_mode: ComplianceMode,
    pub max_key_lifetime_hours: u64,
    /// The largest number of shares that one request may ask for.
    pub max_shares: usize,
    /// How many threads the caller would like to be used; advisory.
    pub parallelism_hint: usize,
}

impl Default for EnterpriseConfig {
    fn default() -> (r: EnterpriseConfig)
        ensures
            r.security_level == SecurityLevel::High,
            r.audit_enabled,
            r.performance_monitoring,
            r.compliance_mode == ComplianceMode::Standard,
            r.max_key_lifetime_hours == 24,
            r.max_shares == 1000,
            r.parallelism_hint == 0,
    {
        EnterpriseConfig {
            security_level: SecurityLevel::High,
            audit_enabled: true,
            performance_monitoring: true,
            compliance_mode: ComplianceMode::Standard,
            max_key_lifetime_hours: 24,
            max_shares: 1000,
            parallelism_hint: 0,
        }
    }
}

/// The service: settings, audit trail and measurements.
pub struct EnterpriseCryptoSystem {
    config: EnterpriseConfig,
    error_handler: ErrorHandler,
    performance_metrics: Vec<PerformanceMetrics>,
}

/// The reason given when the threshold exceeds the number of shares.
pub open spec fn threshold_reason_spec(threshold: usize, num_shares: usize) -> Seq<char> {
    "threshold "@ + decimal_spec(threshold as nat) + " exceeds num_shares "@ + decimal_spec(
        num_shares as nat,
    )
}

/// The error that a request for shares is refused with, if it is refused:
/// a threshold of 0 or above the number of shares, or too many shares.
pub open spec fn request_refused(
    threshold: usize,
    num_shares: usize,
    max_shares: usize,
    e: CryptoError,
) -> bool {
    if threshold > num_shares {
        e matches CryptoError::Validation { field, reason } && field@ == "threshold"@ && reason@
            == threshold_reason_spec(threshold, num_shares)
    } else if num_shares > max_shares {
        e matches CryptoError::ResourceExhaustion { resource } && resource@ == "share_count"@
    } else {
        threshold == 0 && (e matches CryptoError::Validation { field, reason } && field@
            == "threshold"@ && reason@ == "threshold must be at least 1"@)
    }
}

/// Whether the request for shares is acceptable.
pub open spec fn request_valid(threshold: usize, num_shares: usize, max_shares: usize) -> bool {
    1 <= threshold <= num_shares <= max_shares
}

/// Whether the error is a failed cryptographic operation of the given name.
pub open spec fn operation_failed(e: CryptoError, name: Seq<char>) -> bool {
    e matches CryptoError::CryptographicOperation { operation } && operation@ == name
}

/// Hands the shares on if every one of them verifies, and reports a failed
/// operation of the given name if one does not.
pub fn require_valid_shares(shares: Vec<ShareData>, name: &str) -> (r: CryptoResult<Vec<ShareData>>)
    ensures
        (forall|i: int| 0 <= i < shares.len() ==> share_verifies(#[trigger] shares[i])) ==> r
            == Ok::<Vec<ShareData>, CryptoError>(shares),
        !(forall|i: int| 0 <= i < shares.len() ==> share_verifies(#[trigger] shares[i]))
            ==> r.is_err() && operation_failed(r.unwrap_err(), name@),
{
    if verify_share_validity(shares.as_slice()) {
        Ok(shares)
    } else {
        Err(CryptoError::CryptographicOperation { operation: String::from_str(name) })
    }
}

/// The outcome of reconstruction for the service: the secret, or a failed
/// operation that carries the message of the reconstruction's error.
pub fn wrap_recovery(outcome: Result<Scalar, LagrangeError>) -> (r: CryptoResult<Scalar>)
    ensures
        outcome.is_ok() ==> r == Ok::<Scalar, CryptoError>(outcome.unwrap()),
        outcome.is_err() ==> r.is_err() && operation_failed(
            r.unwrap_err(),
            "secret_recovery: "@ + outcome.unwrap_err().message_spec(),
        ),
{
    match outcome {
        Ok(secret) => Ok(secret),
        Err(e) => Err(
            CryptoError::CryptographicOperation {
                operation: String::from_str("secret_recovery: ").concat(e.message().as_str()),
            },
        ),
    }
}

/// Whether the measurements grew by one for the operation, where
/// measurements are taken, and did not change, where they are not.
pub open spec fn measured(
    before: Seq<PerformanceMetrics>,
    after: Seq<PerformanceMetrics>,
    monitoring: bool,
    operation: Seq<char>,
    input_size: usize,
    algorithm: Seq<char>,
) -> bool {
    if monitoring {
        &&& after.len() == before.len() + 1
        &&& after.drop_last() == before
        &&& after.last().operation_type@ == operation
        &&& after.last().input_size == input_size
        &&& after.last().algorithm_used@ == algorithm
    } else {
        after == before
    }
}

impl EnterpriseCryptoSystem {
    /// The audit trail.
    pub closed spec fn events(&self) -> Seq<SecurityEvent> {
        self.error_handler.audit_logger@
    }

    /// The measurements.
    pub closed spec fn metrics(&self) -> Seq<PerformanceMetrics> {
        self.performance_metrics@
    }

    /// Whether measurements are taken.
    pub closed spec fn monitoring(&self) -> bool {
        self.config.performance_monitoring
    }

    /// The largest number of shares that one request may ask for.
    pub closed spec fn max_shares(&self) -> usize {
        self.config.max_shares
    }

    /// A service with the settings, an empty audit trail and no measurements.
    pub fn new(config: EnterpriseConfig) -> (r: EnterpriseCryptoSystem)
        ensures
            r.events() == Seq::<SecurityEvent>::empty(),
            r.metrics() == Seq::<PerformanceMetrics>::empty(),
            r.monitoring() == config.performance_monitoring,
            r.max_shares() == config.max_shares,
    {
        EnterpriseCryptoSystem {
            config,
            error_handler: ErrorHandler::default(),
            performance_metrics: Vec::new(),
        }
    }

    /// Checks the hash function's properties and measures its speed; every
    /// compliance mode is accepted.
    pub fn validate_security(&self) -> (r: CryptoResult<()>)
        ensures
            r.is_ok(),
    {
        match SecurityValidator::validate_security_properties() {
            Ok(()) => {},
            Err(e) => {
                return Err(CryptoError::SecurityViolation { details: e });
            },
        }
        let _performance = SecurityValidator::benchmark_performance();
        Ok(())
    }

    fn record(&mut self, operation: &str, watch: &Stopwatch, input_size: usize, algorithm: &str)
        ensures
            final(self).events() == old(self).events(),
            final(self).monitoring() == old(self).monitoring(),
            final(self).max_shares() == old(self).max_shares(),
            measured(
                old(self).metrics(),
                final(self).metrics(),
                old(self).monitoring(),
                operation@,
                input_size,
                algorithm@,
            ),
    {
        if self.config.performance_monitoring {
            let metrics = PerformanceMetrics {
                operation_type: String::from_str(operation),
                duration_ns: watch.elapsed_ns(),
                input_size,
                algorithm_used: String::from_str(algorithm),
            };
            self.performance_metrics.push(metrics);
            assert(self.performance_metrics@.drop_last() =~= old(self).performance_metrics@);
        }
    }

    /// Makes a key with a random secret, activates it and logs both steps.
    pub fn generate_enterprise_key(&mut self, key_id: &str) -> (r: CryptoResult<Key>)
        ensures
            r.is_ok(),
            r.unwrap().state == KeyState::Active,
            final(self).events().len() == old(self).events().len() + 2,
            final(self).events().subrange(0, old(self).events().len() as int)
                == old(self).events(),
            final(self).events()[old(self).events().len() as int] matches SecurityEvent::KeyGenerated {
                key_id: id,
                ..
            } && id@ == key_id@,
            final(self).events()[old(self).events().len() as int + 1] matches SecurityEvent::KeyActivated {
                key_id: id,
                ..
            } && id@ == key_id@,
            final(self).monitoring() == old(self).monitoring(),
            final(self).max_shares() == old(self).max_shares(),
            measured(
                old(self).metrics(),
                final(self).metrics(),
                old(self).monitoring(),
                "key_generation"@,
                1,
                "curve25519_dalek"@,
            ),
    {
        let watch = Stopwatch::start();
        let secret = random_scalar();
        let mut key = Key::new(secret);
        self.error_handler.audit_logger.log_event(
            SecurityEvent::KeyGenerated {
                key_id: String::from_str(key_id),
                timestamp: current_timestamp(),
            },
        );
        key.activate();
        self.error_handler.audit_logger.log_event(
            SecurityEvent::KeyActivated {
                key_id: String::from_str(key_id),
                timestamp: current_timestamp(),
            },
        );
        assert(self.events().subrange(0, old(self).events().len() as int) =~= old(self).events());
        self.record("key_generation", &watch, 1, "curve25519_dalek");
        Ok(key)
    }

    /// Issues `num_shares` shares of the secret under the threshold and
    /// checks every one of them before handing them out.
    pub fn create_secret_shares(
        &mut self,
        secret: Scalar,
        threshold: usize,
        num_shares: usize,
        operation_id: &str,
    ) -> (r: CryptoResult<Vec<ShareData>>)
        ensures
            final(self).events() == old(self).events(),
            final(self).max_shares() == old(self).max_shares(),
            !request_valid(threshold, num_shares, old(self).max_shares()) ==> r.is_err()
                && request_refused(threshold, num_shares, old(self).max_shares(), r.unwrap_err())
                && final(self).metrics() == old(self).metrics(),
            request_valid(threshold, num_shares, old(self).max_shares()) ==> match r {
                Ok(shares) => {
                    &&& shares.len() == num_shares
                    &&& numbered_and_consistent(shares@)
                    &&& forall|i: int| 0 <= i < shares.len() ==> share_verifies(#[trigger] shares[i])
                    &&& exists|poly: Seq<nat>|
                        poly.len() == threshold && poly[0] == secret@ && shares_of_polynomial(
                            shares@,
                            poly,
                        )
                },
                Err(e) => operation_failed(e, "share_verification"@),
            },
            final(self).monitoring() == old(self).monitoring(),
            r.is_ok() ==> measured(
                old(self).metrics(),
                final(self).metrics(),
                old(self).monitoring(),
                "share_generation"@,
                num_shares,
                "shamir_secret_sharing"@,
            ),
            r.is_err() ==> final(self).metrics() == old(self).metrics(),
    {
        let watch = Stopwatch::start();
        if threshold > num_shares {
            let reason = String::from_str("threshold ").concat(
                decimal(threshold as u64).as_str(),
            ).concat(" exceeds num_shares ").concat(decimal(num_shares as u64).as_str());
            return Err(CryptoError::Validation { field: String::from_str("threshold"), reason });
        }
        if num_shares > self.config.max_shares {
            return Err(
                CryptoError::ResourceExhaustion { resource: String::from_str("share_count") },
            );
        }
        if threshold == 0 {
            return Err(
                CryptoError::Validation {
                    field: String::from_str("threshold"),
                    reason: String::from_str("threshold must be at least 1"),
                },
            );
        }
        let issued = generate_key_shares(secret, threshold, num_shares);
        let shares = match require_valid_shares(issued, "share_verification") {
            Ok(shares) => shares,
            Err(e) => {
                return Err(e);
            },
        };
        self.record("share_generation", &watch, num_shares, "shamir_secret_sharing");
        Ok(shares)
    }

    /// Checks every share and reconstructs the secret from them.
    pub fn recover_secret_enterprise(&mut self, shares: &[ShareData], operation_id: &str) -> (r:
        CryptoResult<Scalar>)
        requires
            2 * shares.len() + 2 <= usize::MAX,
        ensures
            final(self).events() == old(self).events(),
            final(self).max_shares() == old(self).max_shares(),
            !(forall|i: int| 0 <= i < shares.len() ==> share_verifies(#[trigger] shares[i]))
                ==> r.is_err() && operation_failed(r.unwrap_err(), "share_validation"@),
            (forall|i: int| 0 <= i < shares.len() ==> share_verifies(#[trigger] shares[i]))
                ==> match recover_spec(shares@) {
                Ok(value) => r.is_ok() && r.unwrap()@ == value,
                Err(e) => r.is_err() && operation_failed(
                    r.unwrap_err(),
                    "secret_recovery: "@ + e.message_spec(),
                ),
            },
            final(self).monitoring() == old(self).monitoring(),
            r.is_ok() ==> measured(
                old(self).metrics(),
                final(self).metrics(),
                old(self).monitoring(),
                "secret_recovery"@,
                shares.len(),
                "lagrange_fft"@,
            ),
            r.is_err() ==> final(self).metrics() == old(self).metrics(),
    {
        let watch = Stopwatch::start();
        if !verify_share_validity(shares) {
            return Err(
                CryptoError::CryptographicOperation {
                    operation: String::from_str("share_validation"),
                },
            );
        }
        let secret = match wrap_recovery(recover_secret_fft(shares)) {
            Ok(secret) => secret,
            Err(e) => {
                return Err(e);
            },
        };
        self.record("secret_recovery", &watch, shares.len(), "lagrange_fft");
        Ok(secret)
    }

    /// The measurements taken so far.
    pub fn get_performance_metrics(&self) -> (r: &[PerformanceMetrics])
        ensures
            r@ == self.metrics(),
    {
        self.performance_metrics.as_slice()
    }

    /// The audit trail so far.
    pub fn get_audit_events(&self) -> (r: &[SecurityEvent])
        ensures
            r@ == self.events(),
    {
        self.error_handler.audit_logger.get_events()
    }
}

/// Whether reconstruction gave back the secret that was shared; if not, a
/// failed verification is reported.
pub fn confirm_recovery(recovered: &Scalar, secret: &Scalar) -> (r: CryptoResult<()>)
    ensures
        recovered@ == secret@ ==> r.is_ok(),
        recovered@ != secret@ ==> r.is_err() && operation_failed(
            r.unwrap_err(),
            "secret_verification"@,
        ),
{
    if recovered.equals(secret) {
        Ok(())
    } else {
        Err(
            CryptoError::CryptographicOperation {
                operation: String::from_str("secret_verification"),
            },
        )
    }
}

/// What a demonstration that ends well has shown of a secret and the ten
/// shares issued for it under the threshold five: the shares are numbered
/// from 1 and consistent, lie on a polynomial with five coefficients whose
/// constant term is the secret, every one of them verifies, and the first
/// five reconstruct the secret.
pub open spec fn demonstrated(secret: nat, shares: Seq<ShareData>) -> bool {
    &&& shares.len() == 10
    &&& numbered_and_consistent(shares)
    &&& forall|i: int| 0 <= i < shares.len() ==> share_verifies(#[trigger] shares[i])
    &&& exists|poly: Seq<nat>|
        poly.len() == 5 && poly[0] == secret && shares_of_polynomial(shares, poly)
    &&& recover_spec(shares.subrange(0, 5)) == Ok::<nat, LagrangeError>(secret)
}

/// The errors that a demonstration can end with: an issued share that does
/// not verify, a reconstruction that fails, or a reconstructed value that is
/// not the secret.
pub open spec fn demonstration_failure(e: CryptoError) -> bool {
    ||| operation_failed(e, "share_verification"@)
    ||| exists|cause: LagrangeError|
        operation_failed(e, "secret_recovery: "@ + #[trigger] cause.message_spec())
    ||| operation_failed(e, "secret_verification"@)
}

/// One pass through the service: a key is made, shared five out of ten,
/// reconstructed from the first five shares and compared. It ends well
/// exactly when every step did; the settings and the request are such that
/// no step is refused for its arguments.
pub fn enterprise_demonstration() -> (r: CryptoResult<()>)
    ensures
        match r {
            Ok(_) => exists|secret: nat, shares: Seq<ShareData>| demonstrated(secret, shares),
            Err(e) => demonstration_failure(e),
        },
{
    let config = EnterpriseConfig::default();
    let mut crypto_system = EnterpriseCryptoSystem::new(config);
    match crypto_system.validate_security() {
        Ok(()) => {},
        Err(e) => {
            return Err(e);
        },
    }
    let key = match crypto_system.generate_enterprise_key("master-key-001") {
        Ok(key) => key,
        Err(e) => {
            return Err(e);
        },
    };
    let secret = key.secret;
    let threshold: usize = 5;
    let num_shares: usize = 10;
    let shares = match crypto_system.create_secret_shares(
        secret,
        threshold,
        num_shares,
        "demo-operation-001",
    ) {
        Ok(shares) => shares,
        Err(e) => {
            return Err(e);
        },
    };
    let selected = vstd::slice::slice_subrange(shares.as_slice(), 0, threshold);
    assert forall|i: int| 0 <= i < selected.len() implies share_verifies(
        #[trigger] selected[i],
    ) by {
        assert(selected[i] == shares[i]);
    }
    let recovered = match crypto_system.recover_secret_enterprise(selected, "demo-recovery-001") {
        Ok(recovered) => recovered,
        Err(e) => {
            assert(recover_spec(selected@) is Err);
            assert(operation_failed(
                e,
                "secret_recovery: "@ + recover_spec(selected@)->Err_0.message_spec(),
            ));
            return Err(e);
        },
    };
    let outcome = confirm_recovery(&recovered, &secret);
    proof {
        if outcome.is_ok() {
            assert(recover_spec(shares@.subrange(0, 5)) == Ok::<nat, LagrangeError>(secret@));
            assert(demonstrated(secret@, shares@));
        }
    }
    outcome
}

} // verus!
