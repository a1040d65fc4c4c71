//! The library's errors, the audit trail and the choice of a recovery
//! strategy for an error.

use vstd::prelude::*;
use vstd::string::StringExecFns;
use crate::utils::{decimal, decimal_spec};

verus! {

/// What can go wrong in an operation of the library.
#[derive(Clone, Debug, PartialEq, Eq)]
pub enum CryptoError {
    KeyGeneration { reason: String },
    InvalidKeyStateTransition { from: String, to: String },
    CryptographicOperation { operation: String },
    Serialization { details: String },
    Validation { field: String, reason: String },
    SecurityViolation { details: String },
    InsufficientEntropy { required: u32, actual: u32 },
    Timeout { operation: String, timeout_ms: u64 },
    ResourceExhaustion { resource: String },
    Network { details: String },
    Configuration { parameter: String, issue: String },
}

/// The result of an operation of the library.
pub type CryptoResult<T> = Result<T, CryptoError>;

/// An entry of the audit trail. Times are seconds since the Unix epoch.
#[derive(Clone, Debug, PartialEq, Eq)]
pub enum SecurityEvent {
    KeyGenerated { key_id: String, timestamp: i64 },
    KeyActivated { key_id: String, timestamp: i64 },
    KeyRetired { key_id: String, timestamp: i64 },
    KeyDestroyed { key_id: String, timestamp: i64 },
    UnauthorizedAccess { attempt: String, timestamp: i64 },
    PolicyViolation { policy: String, violation: String, timestamp: i64 },
}

/// What to do after an error.
#[derive(Clone, Debug, PartialEq, Eq)]
pub enum RecoveryStrategy {
    Retry { max_attempts: u32 },
    Fallback { alternative: String },
    Abort,
}

/// The audit trail: security events in the order they were logged.
pub struct AuditLogger {
    events: Vec<SecurityEvent>,
}

/// Chooses recovery strategies and keeps the audit trail.
pub struct ErrorHandler {
    pub audit_logger: AuditLogger,
}

/// The text of two parts around a separator.
pub open spec fn joined(head: Seq<char>, first: Seq<char>, sep: Seq<char>, second: Seq<char>) -> Seq<
    char,
> {
    head + first + sep + second
}

impl CryptoError {
    /// The message of the error.
    pub open spec fn message_spec(&self) -> Seq<char> {
        match self {
            CryptoError::KeyGeneration { reason } => "Key generation failed: "@ + reason@,
            CryptoError::InvalidKeyStateTransition { from, to } => joined(
                "Invalid key state transition: "@,
                from@,
                " -> "@,
                to@,
            ),
            CryptoError::CryptographicOperation { operation } => "Cryptographic operation failed: "@
                + operation@,
            CryptoError::Serialization { details } => "Serialization error: "@ + details@,
            CryptoError::Validation { field, reason } => joined(
                "Validation failed: "@,
                field@,
                " - "@,
                reason@,
            ),
            CryptoError::SecurityViolation { details } => "Security violation: "@ + details@,
            CryptoError::InsufficientEntropy { required, actual } => joined(
                "Insufficient entropy: required "@,
                decimal_spec(*required as nat),
                ", got "@,
                decimal_spec(*actual as nat),
            ),
            CryptoError::Timeout { operation, timeout_ms } => joined(
                "Timeout occurred: operation "@,
                operation@,
                " timed out after "@,
                decimal_spec(*timeout_ms as nat),
            ) + "ms"@,
            CryptoError::ResourceExhaustion { resource } => "Resource exhaustion: "@ + resource@
                + " limit exceeded"@,
            CryptoError::Network { details } => "Network error: "@ + details@,
            CryptoError::Configuration { parameter, issue } => joined(
                "Configuration error: "@,
                parameter@,
                " - "@,
                issue@,
            ),
        }
    }

    /// The message of the error.
    pub fn message(&self) -> (r: String)
        ensures
            r@ == self.message_spec(),
    {
        match self {
            CryptoError::KeyGeneration { reason } => String::from_str(
                "Key generation failed: ",
            ).concat(reason.as_str()),
            CryptoError::InvalidKeyStateTransition { from, to } => String::from_str(
                "Invalid key state transition: ",
            ).concat(from.as_str()).concat(" -> ").concat(to.as_str()),
            CryptoError::CryptographicOperation { operation } => String::from_str(
                "Cryptographic operation failed: ",
            ).concat(operation.as_str()),
            CryptoError::Serialization { details } => String::from_str(
                "Serialization error: ",
            ).concat(details.as_str()),
            CryptoError::Validation { field, reason } => String::from_str(
                "Validation failed: ",
            ).concat(field.as_str()).concat(" - ").concat(reason.as_str()),
            CryptoError::SecurityViolation { details } => String::from_str(
                "Security violation: ",
            ).concat(details.as_str()),
            CryptoError::InsufficientEntropy { required, actual } => String::from_str(
                "Insufficient entropy: required ",
            ).concat(decimal(*required as u64).as_str()).concat(", got ").concat(
                decimal(*actual as u64).as_str(),
            ),
            CryptoError::Timeout { operation, timeout_ms } => String::from_str(
                "Timeout occurred: operation ",
            ).concat(operation.as_str()).concat(" timed out after ").concat(
                decimal(*timeout_ms).as_str(),
            ).concat("ms"),
            CryptoError::ResourceExhaustion { resource } => String::from_str(
                "Resource exhaustion: ",
            ).concat(resource.as_str()).concat(" limit exceeded"),
            CryptoError::Network { details } => String::from_str("Network error: ").concat(
                details.as_str(),
            ),
            CryptoError::Configuration { parameter, issue } => String::from_str(
                "Configuration error: ",
            ).concat(parameter.as_str()).concat(" - ").concat(issue.as_str()),
        }
    }
}

/// Reads the wall clock through `chrono::Utc::now` and gives the seconds
/// since the Unix epoch. Nothing is known of the outcome.
#[verifier::external_body]
fn clock_seconds() -> (r: i64)
{
    chrono::Utc::now().timestamp()
}

/// The present time in seconds since the Unix epoch.
pub fn current_timestamp() -> (r: i64)
{
    clock_seconds()
}

impl AuditLogger {
    /// The events logged so far.
    pub closed spec fn view(&self) -> Seq<SecurityEvent> {
        self.events@
    }

    /// An empty trail.
    pub fn new() -> (r: AuditLogger)
        ensures
            r@ == Seq::<SecurityEvent>::empty(),
    {
        AuditLogger { events: Vec::new() }
    }

    /// Appends the event to the trail.
    pub fn log_event(&mut self, event: SecurityEvent)
        ensures
            final(self)@ == old(self)@.push(event),
    {
        self.events.push(event);
    }

    /// The events logged so far.
    pub fn get_events(&self) -> (r: &[SecurityEvent])
        ensures
            r@ == self@,
    {
        self.events.as_slice()
    }
}

/// Whether the strategy is the one for the error: key generation is retried
/// three times, a timeout twice, a security violation aborts, anything else
/// falls back to safe mode.
pub open spec fn strategy_matches(r: RecoveryStrategy, error: CryptoError) -> bool {
    match error {
        CryptoError::KeyGeneration { .. } => r == (RecoveryStrategy::Retry { max_attempts: 3 }),
        CryptoError::SecurityViolation { .. } => r == RecoveryStrategy::Abort,
        CryptoError::Timeout { .. } => r == (RecoveryStrategy::Retry { max_attempts: 2 }),
        _ => r matches RecoveryStrategy::Fallback { alternative } && alternative@ == "safe_mode"@,
    }
}

/// Whether the trail grew as the error asks: by a policy violation for a
/// failed key generation, by an unauthorized access for a security
/// violation, each with the error's message, and by nothing otherwise.
pub open spec fn trail_matches(
    before: Seq<SecurityEvent>,
    after: Seq<SecurityEvent>,
    error: CryptoError,
) -> bool {
    match error {
        CryptoError::KeyGeneration { .. } => {
            &&& after.len() == before.len() + 1
            &&& after.drop_last() == before
            &&& after.last() matches SecurityEvent::PolicyViolation { policy, violation, .. }
            &&& policy@ == "key_generation"@
            &&& violation@ == error.message_spec()
        },
        CryptoError::SecurityViolation { .. } => {
            &&& after.len() == before.len() + 1
            &&& after.drop_last() == before
            &&& after.last() matches SecurityEvent::UnauthorizedAccess { attempt, .. }
            &&& attempt@ == error.message_spec()
        },
        _ => after == before,
    }
}

impl ErrorHandler {
    /// A handler with an empty audit trail.
    pub fn new() -> (r: ErrorHandler)
        ensures
            r.audit_logger@ == Seq::<SecurityEvent>::empty(),
    {
        ErrorHandler { audit_logger: AuditLogger::new() }
    }

    /// Chooses the strategy for the error and logs what the audit asks for.
    pub fn handle_error(&mut self, error: &CryptoError) -> (r: RecoveryStrategy)
        ensures
            strategy_matches(r, *error),
            trail_matches(old(self).audit_logger@, final(self).audit_logger@, *error),
    {
        match error {
            CryptoError::KeyGeneration { .. } => {
                let event = SecurityEvent::PolicyViolation {
                    policy: String::from_str("key_generation"),
                    violation: error.message(),
                    timestamp: current_timestamp(),
                };
                self.audit_logger.log_event(event);
                assert(self.audit_logger@.drop_last() =~= old(self).audit_logger@);
                RecoveryStrategy::Retry { max_attempts: 3 }
            },
            CryptoError::SecurityViolation { .. } => {
                let event = SecurityEvent::UnauthorizedAccess {
                    attempt: error.message(),
                    timestamp: current_timestamp(),
                };
                self.audit_logger.log_event(event);
                assert(self.audit_logger@.drop_last() =~= old(self).audit_logger@);
                RecoveryStrategy::Abort
            },
            CryptoError::Timeout { .. } => RecoveryStrategy::Retry { max_attempts: 2 },
            _ => RecoveryStrategy::Fallback { alternative: String::from_str("safe_mode") },
        }
    }
}

impl Default for ErrorHandler {
    fn default() -> (r: ErrorHandler)
        ensures
            r.audit_logger@ == Seq::<SecurityEvent>::empty(),
    {
        ErrorHandler::new()
    }
}

} // verus!
