//! A true random number generator that draws its entropy from the jitter of
//! CPU execution and memory access times.
//!
//! [`JitterRng`] is the generator. Its contracts say what it does to its state as
//! a function of the timer readings that it takes, all of which it keeps in a ghost
//! log. `model` holds that function. What follows from it is in `laws` for the
//! generator as a whole, in `jitter_law` for how the jitter gets into a number, in
//! `number_law` for how numbers are cut up, in `verdict_law` and `rounds_law` for the
//! timer test, and in `lfsr_law` and `stir_law` for the entropy pool.

pub mod bits;
pub mod ec;
pub mod error;
mod frames;
pub mod jitter_law;
pub mod laws;
pub mod lfsr_law;
pub mod memory;
pub mod model;
pub mod number_law;
pub mod opaque;
pub mod platform;
pub mod pool;
pub mod rng;
pub mod rounds_law;
pub mod stir_law;
pub mod timer;
pub mod timer_test;
pub mod timing;
pub mod verdict_law;

pub use error::TimerError;
pub use rng::JitterRng;
