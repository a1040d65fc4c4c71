//! Measuring how long an operation takes.

use vstd::prelude::*;

verus! {

/// Reads the monotonic clock through `std::time::Instant::now`.
#[verifier::external_body]
fn timer_start() -> (r: std::time::Instant)
{
    std::time::Instant::now()
}

/// The nanoseconds since `start`, by `std::time::Instant::elapsed`, cut to 64 bits.
#[verifier::external_body]
fn timer_elapsed_ns(start: &std::time::Instant) -> (r: u64)
{
    start.elapsed().as_nanos() as u64
}

/// The monotonic clock's type, carried from `timer_start` to `timer_elapsed_ns`.
#[verifier::external_type_specification]
#[verifier::external_body]
pub struct ExInstant(std::time::Instant);

/// A stopwatch over the monotonic clock.
pub struct Stopwatch {
    start: std::time::Instant,
}

impl Stopwatch {
    /// Starts measuring.
    pub fn start() -> (r: Stopwatch) {
        Stopwatch { start: timer_start() }
    }

    /// The nanoseconds since the start.
    pub fn elapsed_ns(&self) -> (r: u64) {
        timer_elapsed_ns(&self.start)
    }
}

} // verus!
