//! Where clock samples come from: a trait for any source of them, and the
//! host's monotonic clock as the one the library itself uses.
use vstd::prelude::*;

verus! {

#[verifier::external_type_specification]
#[verifier::external_body]
pub struct ExInstant(std::time::Instant);

/// Relies on `Instant::now`: it reads the monotonic clock; nothing is known of the value.
pub assume_specification[ std::time::Instant::now ]() -> std::time::Instant;

/// Relies on `Instant::elapsed`: the time since an instant; nothing is known of the value.
pub assume_specification[ std::time::Instant::elapsed ](i: &std::time::Instant) -> std::time::Duration;

/// Relies on `Duration::subsec_nanos`: the fractional part of a second, below one billion.
pub assume_specification[ core::time::Duration::subsec_nanos ](d: &core::time::Duration) -> (r: u32)
    ensures
        r < 1_000_000_000,
;

/// A source of clock samples: the sub-second part of the current time, in nanoseconds.
pub trait Clock {
    fn now_subsec_ns(&mut self) -> u32;
}

/// The host's monotonic clock, read as nanoseconds past the whole second since `origin`.
pub struct SystemClock {
    origin: std::time::Instant,
}

impl SystemClock {
    /// A clock whose seconds count from now.
    pub fn new() -> (r: SystemClock) {
        SystemClock { origin: std::time::Instant::now() }
    }
}

impl Clock for SystemClock {
    fn now_subsec_ns(&mut self) -> u32 {
        self.origin.elapsed().subsec_nanos()
    }
}

} // verus!
