# jitter

A true random number generator that draws its entropy from the jitter of CPU
execution and memory access times, written and verified in Verus. It is based on
[Jitterentropy](http://www.chronox.de/jent.html) version 2.1.0.

`JitterRng::new` tests the system clock, unless an earlier result is cached, and if it is
good enough returns a generator that reads it. `JitterRng::new_with_timer` takes any
function that returns time stamps; `start_up` then tests it and fills the pool. Numbers come from `next_u32`, `next_u64` and `fill_bytes`.

## Layout

- `src/rng.rs`: the generator. It keeps a ghost log of all timer readings that it has
  taken, and its contracts say what it does as a function of them.
- `src/model.rs`: that function.
- `src/bits.rs`, `src/pool.rs`, `src/memory.rs`, `src/timing.rs`, `src/ec.rs`: the
  parts: folding, the shift register and the mixer, the memory walk, time deltas, the
  stuck test.
- `src/timer_test.rs`: the quality test of a timer.
- `src/timer.rs`, `src/platform.rs`, `src/opaque.rs`: timers, the system clock, and a
  guard against the optimizer.
- `src/laws.rs`, `src/lfsr_law.rs`, `src/stir_law.rs`: what follows for the generator as
  a whole: that no step destroys entropy, that a broken timer is refused, that no half of
  a number is wasted.
- `src/frames.rs`: lemmas on runs of measurements.
- `app/`: the generator behind the traits of `rand_core`, and the clocks of other
  platforms.

Every loop ends. A timer that is stuck for `STUCK_LIMIT` measurements in a row makes the
generator return `TimerError::TooManyStuck`.
