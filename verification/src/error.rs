//! Why a timer is refused.

use vstd::prelude::*;

verus! {

/// An error that can occur when the test of a timer fails, or when a timer stops
/// to yield entropy.
#[derive(Debug, Clone, Copy, PartialEq, Eq, Structural)]
#[non_exhaustive]
pub enum TimerError {
    /// No timer available.
    NoTimer,
    /// Timer too coarse to use as an entropy source.
    CoarseTimer,
    /// Timer is not monotonically increasing.
    NotMonotonic,
    /// Variations of deltas of time too small.
    TinyVariantions,
    /// Too many stuck results (indicating no added entropy).
    TooManyStuck,
}

impl TimerError {
    /// A description of the error.
    pub fn description(&self) -> (r: &'static str)
        ensures
            r@ == match *self {
                TimerError::NoTimer => "no timer available"@,
                TimerError::CoarseTimer => "coarse timer"@,
                TimerError::NotMonotonic => "timer not monotonic"@,
                TimerError::TinyVariantions => "time delta variations too small"@,
                TimerError::TooManyStuck => "too many stuck results"@,
            },
    {
        match *self {
            TimerError::NoTimer => "no timer available",
            TimerError::CoarseTimer => "coarse timer",
            TimerError::NotMonotonic => "timer not monotonic",
            TimerError::TinyVariantions => "time delta variations too small",
            TimerError::TooManyStuck => "too many stuck results",
        }
    }
}

} // verus!
