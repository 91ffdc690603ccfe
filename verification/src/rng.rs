//! The generator.

use vstd::prelude::*;

use crate::bits::{fold_time, rotate_left};
use crate::ec::EcState;
use crate::error::TimerError;
use crate::memory::{walk, MEMORY_SIZE};
use crate::model::{RngState, MIN_ACCESSES, STUCK_LIMIT};
use crate::opaque::black_box;
use crate::pool::{lfsr, lfsr_throw_away, stir};
use crate::timer::{CustomTimer, LoggedTimer, SystemClock, Timer};
use crate::timer_test::{TimerTest, SAMPLES};
use crate::timing::{delta, long_delta, widen};

verus! {

use crate::bits::lemma_halves;
use crate::frames::{
    lemma_accesses_frame, lemma_measurement_walks_on, lemma_noise_run_frame, lemma_run_frame,
    lemma_run_joins, lemma_stuck_frame, lemma_stuck_joins, lemma_stuck_yields_nothing,
    lemma_yields_frame,
};
use crate::memory::hits;
use crate::model::{
    accesses, after_noise, agree, byte_of, collector, entropy_spec, extends, fill_run, fill_spec,
    goes_on, index_after, is_word_run, loop_count, measured, measurements, measures_stuck,
    next_u32_spec, next_u64_spec, noise_run, optional, round_spec, run, run_accesses, samples_of,
    startup_spec, stuck_in_run, stuck_row, test_runs, test_spec, words_for, yields, Collector,
};
use crate::platform::is_nstime;
use crate::pool::{lfsr_repeated, lfsr_spec, stirred};
use crate::timer::{all_from, lemma_log_goes_on, was_read};
use crate::timer_test::Sample;
use crate::timing::long_delta_spec;

/// A true random number generator based on jitter in the CPU execution time, and
/// jitter in memory access time.
///
/// This is a true random number generator, as opposed to pseudo-random
/// generators. Random numbers generated by `JitterRng` can be seen as fresh
/// entropy. A consequence is that it is orders of magnitude slower than the
/// random numbers of the operating system and PRNGs.
///
/// There are very few situations where using this RNG is appropriate. Only very
/// few applications require true entropy. A normal PRNG can be statistically
/// indistinguishable, and a cryptographic PRNG should also be as impossible to
/// predict.
///
/// The generator is based on [Jitterentropy](http://www.chronox.de/jent.html)
/// version 2.1.0.
pub struct JitterRng<T> {
    // Actual random number
    data: u64,
    // Number of rounds to run the entropy collector per 64 bits
    rounds: u8,
    // Timer used by `measure_jitter`, with all its readings so far
    timer: LoggedTimer<T>,
    // Where the Memory Access noise source ended its last walk
    mem_prev_index: u16,
    // Make `next_u32` not waste 32 bits
    data_half_used: bool,
}

/// A run of the noise sources between two clock values takes the generator from
/// one state to another, and gives the time `r` that it took.
pub open spec fn stats_spec(
    pre: RngState,
    post: RngState,
    var_rounds: bool,
    time: u64,
    time2: u64,
    r: i64,
) -> bool {
    let reading = optional(post.readings, pre.readings.len() as int, var_rounds);
    let pool = after_noise(pre.pool(), time, reading);
    &&& r == long_delta_spec(time, time2)
    &&& post == RngState {
        data: pool.data,
        mem_index: pool.mem_index,
        readings: post.readings,
        ..pre
    }
}

impl<T> View for JitterRng<T> {
    type V = RngState;

    closed spec fn view(&self) -> RngState {
        RngState {
            data: self.data,
            rounds: self.rounds,
            mem_index: self.mem_prev_index as int,
            half_used: self.data_half_used,
            readings: self.timer.readings(),
        }
    }
}

impl<T: Timer> JitterRng<T> {
    /// The timer that the generator reads.
    pub closed spec fn timer(self) -> T {
        self.timer.timer()
    }

    /// The timer can be read, and has given all readings so far; the number of
    /// rounds is positive.
    pub open spec fn wf(self) -> bool {
        &&& self.timer().is_ready()
        &&& all_from(self.timer(), self@.readings)
        &&& self@.rounds > 0
    }

    /// A generator that reads `timer`, and has done nothing yet.
    fn from_timer(timer: T) -> (r: JitterRng<T>)
        requires
            timer.is_ready(),
        ensures
            r.wf(),
            r.timer() == timer,
            r@ == RngState::initial(),
    {
        JitterRng {
            data: 0,
            rounds: 64,
            timer: LoggedTimer::new(timer),
            mem_prev_index: 0,
            data_half_used: false,
        }
    }

    /// Configures how many rounds are used to generate each 64-bit value. This
    /// must be greater than zero, and has a big impact on performance and output
    /// quality.
    ///
    /// [`new_with_timer`](JitterRng::new_with_timer) conservatively uses 64
    /// rounds, but often less rounds can be used. The `test_timer()` function
    /// returns the minimum number of rounds required for full strength (platform
    /// dependent), so one may use `rng.set_rounds(rng.test_timer()?);` or cache
    /// the value.
    pub fn set_rounds(&mut self, rounds: u8)
        requires
            old(self).wf(),
            rounds > 0,
        ensures
            final(self).wf(),
            final(self).timer() == old(self).timer(),
            final(self)@ == (RngState { rounds, ..old(self)@ }),
    {
        self.rounds = rounds;
    }

    /// Reads the timer.
    fn read_timer(&mut self) -> (time: u64)
        requires
            old(self).wf(),
        ensures
            final(self).wf(),
            final(self).timer() == old(self).timer(),
            final(self)@ == (RngState { readings: old(self)@.readings.push(time), ..old(self)@ }),
    {
        let time: u64 = self.timer.read();
        proof {
            lemma_log_goes_on(self.timer(), old(self)@.readings, time);
        }
        time
    }

    /// Calculates a random loop count used for the next round of an entropy
    /// collection, based on bits from a fresh value from the timer.
    ///
    /// The timer is folded to produce a number that contains at most `n_bits`
    /// bits.
    ///
    /// Note: A constant should be added to the resulting random loop count to
    /// prevent loops that run 0 times.
    #[inline(never)]
    pub fn random_loop_cnt(&mut self, n_bits: u32) -> (r: u32)
        requires
            old(self).wf(),
            0 < n_bits < 64,
        ensures
            final(self).wf(),
            final(self).timer() == old(self).timer(),
            extends(old(self)@.readings, final(self)@.readings, 1),
            final(self)@ == (RngState { readings: final(self)@.readings, ..old(self)@ }),
            r == loop_count(old(self)@.data, final(self)@.readings.last(), n_bits),
            r < 1u64 << (n_bits as u64),
    {
        let mut time: u64 = self.read_timer();
        // Mix with the current state of the random number to balance the random
        // loop counter a bit more.
        time = time ^ self.data;

        // We fold the time value as much as possible to ensure that as many bits
        // of the time stamp are included as possible.
        let rounds: u64 = fold_time(time, n_bits);
        proof {
            lemma_halves(rounds);
        }
        #[verifier::truncate]
        let count: u32 = rounds as u32;
        count
    }

    /// Runs the LFSR a variable number of times on a throw-away value, for the run
    /// time that it takes. Returns that value.
    pub fn throw_away_rounds(&mut self, time: u64, var_rounds: bool) -> (r: u64)
        requires
            old(self).wf(),
        ensures
            final(self).wf(),
            final(self).timer() == old(self).timer(),
            extends(
                old(self)@.readings,
                final(self)@.readings,
                if var_rounds {
                    1
                } else {
                    0
                },
            ),
            final(self)@ == (RngState { readings: final(self)@.readings, ..old(self)@ }),
            r == lfsr_repeated(
                0,
                time,
                if var_rounds {
                    loop_count(old(self)@.data, final(self)@.readings.last(), 4) as nat
                } else {
                    0
                },
            ),
    {
        let mut lfsr_loop_cnt: u32 = 0;
        if var_rounds {
            lfsr_loop_cnt = self.random_loop_cnt(4);
        }
        lfsr_throw_away(time, lfsr_loop_cnt)
    }

    /// CPU jitter noise source: noise based on the CPU execution time jitter.
    ///
    /// This function injects the individual bits of the time value into the
    /// entropy pool using an LFSR.
    ///
    /// The code is deliberately inefficient with respect to the bit shifting.
    /// This function not only acts as folding operation, but its execution is
    /// used to measure the CPU execution time jitter. Any change to the loop in
    /// it implies that careful retesting must be done.
    #[inline(never)]
    pub fn lfsr_time(&mut self, time: u64, var_rounds: bool)
        requires
            old(self).wf(),
        ensures
            final(self).wf(),
            final(self).timer() == old(self).timer(),
            extends(
                old(self)@.readings,
                final(self)@.readings,
                if var_rounds {
                    1
                } else {
                    0
                },
            ),
            final(self)@ == (RngState {
                data: lfsr_spec(old(self)@.data, time),
                readings: final(self)@.readings,
                ..old(self)@
            }),
    {
        // Only the last round affects the pool. All the others are run on a
        // throw-away value, which is kept from being optimised out.
        black_box(self.throw_away_rounds(time, var_rounds));

        self.data = lfsr(self.data, time);
    }

    /// Memory access noise source: noise based on variations in memory access
    /// times.
    ///
    /// This function performs memory accesses which will add to the timing
    /// variations due to an unknown amount of CPU wait states that need to be
    /// added when accessing memory. The memory size should be larger than the L1
    /// caches as outlined in the documentation and the associated testing.
    ///
    /// The L1 cache has a very high bandwidth, albeit its access rate is usually
    /// slower than accessing CPU registers. Therefore, L1 accesses only add
    /// minimal variations as the CPU has hardly to wait. Starting with L2,
    /// significant variations are added because L2 typically does not belong to
    /// the CPU any more and therefore a wider range of CPU wait states is
    /// necessary for accesses. L3 and real memory accesses have even a wider
    /// range of wait states. However, to reliably access either L3 or memory, the
    /// memory must be quite large which is usually not desirable.
    #[inline(never)]
    pub fn memaccess(&mut self, mem: &mut [u8; MEMORY_SIZE], var_rounds: bool)
        requires
            old(self).wf(),
        ensures
            final(self).wf(),
            final(self).timer() == old(self).timer(),
            extends(
                old(self)@.readings,
                final(self)@.readings,
                if var_rounds {
                    1
                } else {
                    0
                },
            ),
            ({
                let reading = optional(
                    final(self)@.readings,
                    old(self)@.readings.len() as int,
                    var_rounds,
                );
                let count = accesses(old(self)@.data, reading);
                &&& final(self)@ == (RngState {
                    mem_index: index_after(old(self)@.pool(), reading),
                    readings: final(self)@.readings,
                    ..old(self)@
                })
                &&& forall|l: int|
                    0 <= l < MEMORY_SIZE ==> #[trigger] final(mem)@[l] == (old(mem)@[l] + hits(
                        old(self)@.mem_index,
                        count as nat,
                        l,
                    )) % 256
            }),
    {
        let mut acc_loop_cnt: u32 = MIN_ACCESSES;
        if var_rounds {
            let more: u32 = self.random_loop_cnt(4);
            assert(1u64 << 4 == 16) by (bit_vector);
            acc_loop_cnt = acc_loop_cnt + more;
        }
        self.mem_prev_index = walk(mem, self.mem_prev_index, acc_loop_cnt);
    }

    /// This is the heart of the entropy generation: calculate time deltas and use
    /// the CPU jitter in the time deltas. The jitter is injected into the entropy
    /// pool.
    ///
    /// Ensure that `ec.prev_time` is primed before using the output of this
    /// function. This can be done by calling this function and not using its
    /// result.
    pub fn measure_jitter(&mut self, ec: &mut EcState) -> (r: Option<()>)
        requires
            old(self).wf(),
        ensures
            final(self).wf(),
            final(self).timer() == old(self).timer(),
            extends(old(self)@.readings, final(self)@.readings, 3),
            ({
                let log = final(self)@.readings;
                let at = old(self)@.readings.len() as int;
                let before = collector(old(self)@, *old(ec));
                let after = measured(before, log, at);
                let count = accesses(old(self)@.data, Some(log[at]));
                &&& r is None <==> measures_stuck(before, log[at + 1])
                &&& collector(final(self)@, *final(ec)) == after
                &&& final(self)@ == (RngState {
                    data: after.pool.data,
                    mem_index: after.pool.mem_index,
                    readings: log,
                    ..old(self)@
                })
                &&& forall|l: int|
                    0 <= l < MEMORY_SIZE ==> #[trigger] final(ec).mem@[l] == (old(ec).mem@[l]
                        + hits(old(self)@.mem_index, count as nat, l)) % 256
            }),
    {
        // Invoke one noise source before time measurement to add variations
        self.memaccess(&mut ec.mem, true);

        // Get time stamp and calculate time delta to previous invocation to
        // measure the timing variations
        let time: u64 = self.read_timer();
        let current_delta: i32 = delta(ec.prev_time, time);
        ec.prev_time = time;

        // Call the next noise source which also injects the data
        self.lfsr_time(widen(current_delta), true);

        // Check whether we have a stuck measurement (i.e. does the last
        // measurement hold entropy?).
        if ec.stuck(current_delta) {
            return None;
        }
        // Rotate the data buffer by a prime number (any odd number would do) to
        // ensure that every bit position of the input time stamp has an even
        // chance of being merged with a bit position in the entropy pool. We do
        // not use one here as the adjacent bits in successive time deltas may
        // have some form of dependency. The chosen value of 7 implies that the
        // low 7 bits of the next time delta value is concatenated with the
        // current time delta.

        self.data = rotate_left(self.data, 7);

        Some(())
    }

    /// Shuffles the pool a bit by mixing some value with a bijective function
    /// (XOR) into the pool.
    ///
    /// The function generates a mixer value that depends on the bits set and the
    /// location of the set bits in the random number generated by the entropy
    /// source. After obtaining the mixer value, it is XORed into the random
    /// number.
    ///
    /// The mixer value is not assumed to contain any entropy. But it can also not
    /// destroy any entropy present in the entropy pool.
    #[inline(never)]
    pub fn stir_pool(&mut self)
        requires
            old(self).wf(),
        ensures
            final(self).wf(),
            final(self).timer() == old(self).timer(),
            final(self)@ == (RngState { data: stirred(old(self)@.data), ..old(self)@ }),
    {
        self.data = stir(self.data);
    }

    /// Measures until a measurement is not stuck, for at most `attempts` times.
    /// Returns whether there was one.
    #[verifier::rlimit(30)]
    pub fn collect_round(&mut self, ec: &mut EcState, attempts: u64) -> (r: bool)
        requires
            old(self).wf(),
            attempts > 0,
        ensures
            final(self).wf(),
            final(self).timer() == old(self).timer(),
            round_spec(
                collector(old(self)@, *old(ec)),
                old(self)@.readings,
                collector(final(self)@, *final(ec)),
                final(self)@.readings,
                attempts,
                r,
            ),
            final(self)@ == (RngState {
                data: final(self)@.data,
                mem_index: final(self)@.mem_index,
                readings: final(self)@.readings,
                ..old(self)@
            }),
            ({
                let log = final(self)@.readings;
                let at = old(self)@.readings.len() as int;
                let count = run_accesses(
                    collector(old(self)@, *old(ec)),
                    log,
                    at,
                    measurements(log, at),
                );
                forall|l: int|
                    0 <= l < MEMORY_SIZE ==> #[trigger] final(ec).mem@[l] == (old(ec).mem@[l]
                        + hits(old(self)@.mem_index, count, l)) % 256
            }),
    {
        let ghost c = collector(self@, *ec);
        let ghost start = self@.readings;
        let ghost at = start.len() as int;
        let mut tried: u64 = 0;
        while tried < attempts
            invariant
                tried <= attempts,
                attempts > 0,
                at == start.len(),
                c == collector(old(self)@, *old(ec)),
                start == old(self)@.readings,
                self.wf(),
                self.timer() == old(self).timer(),
                extends(start, self@.readings, (3 * tried) as nat),
                collector(self@, *ec) == run(c, self@.readings, at, tried as nat),
                forall|j: int|
                    0 <= j < tried ==> #[trigger] stuck_in_run(c, self@.readings, at, j),
                forall|l: int|
                    0 <= l < MEMORY_SIZE ==> #[trigger] ec.mem@[l] == (old(ec).mem@[l] + hits(
                        c.pool.mem_index,
                        run_accesses(c, self@.readings, at, tried as nat),
                        l,
                    )) % 256,
                self@ == (RngState {
                    data: self@.data,
                    mem_index: self@.mem_index,
                    readings: self@.readings,
                    ..old(self)@
                }),
            decreases attempts - tried,
        {
            let ghost log = self@.readings;
            let ghost mem = ec.mem@;
            let found: Option<()> = self.measure_jitter(ec);
            proof {
                let now = self@.readings;
                assert(agree(log, now, at, at + 3 * tried));
                lemma_run_frame(c, log, now, at, tried as nat);
                lemma_stuck_frame(c, log, now, at, tried as nat);
                assert forall|j: int| 0 <= j < tried implies #[trigger] stuck_in_run(
                    c,
                    now,
                    at,
                    j,
                ) by {
                    assert(stuck_in_run(c, log, at, j));
                }
                assert(found is None <==> stuck_in_run(c, now, at, tried as int));
                lemma_accesses_frame(c, log, now, at, tried as nat);
                assert forall|l: int| 0 <= l < MEMORY_SIZE implies #[trigger] ec.mem@[l] == (old(
                    ec,
                ).mem@[l] + hits(
                    c.pool.mem_index,
                    run_accesses(c, now, at, (tried + 1) as nat),
                    l,
                )) % 256 by {
                    lemma_measurement_walks_on(c, now, at, tried as nat, l);
                    assert(mem[l] == (old(ec).mem@[l] + hits(
                        c.pool.mem_index,
                        run_accesses(c, log, at, tried as nat),
                        l,
                    )) % 256);
                }
            }
            tried = tried + 1;
            if found.is_some() {
                return true;
            }
        }
        false
    }

    /// Collects the entropy for one 64-bit number: as many measurements as there
    /// are rounds, each repeated while it is stuck, but at most `attempts` times.
    pub fn gen_entropy_within(&mut self, attempts: u64) -> (r: Result<u64, TimerError>)
        requires
            old(self).wf(),
            attempts > 0,
        ensures
            final(self).wf(),
            final(self).timer() == old(self).timer(),
            entropy_spec(old(self)@, final(self)@, attempts, r),
    {
        let ghost pre = self@;
        let ghost at = pre.readings.len() as int + 1;

        // Prime `ec.prev_time`, and run the noise sources to make sure the first
        // loop round collects the expected entropy.
        let mut ec = EcState::new(self.read_timer());
        let ghost c = collector(self@, ec);
        let _ = self.measure_jitter(&mut ec);

        let ghost mut m: nat = 1;
        proof {
            let log = self@.readings;
            assert(log[at - 1] == c.prev_time);
            assert(run(c, log, at, 0) == c);
            assert(run(c, log, at, 1) == measured(c, log, at));
        }
        let mut round: u8 = 0;
        while round < self.rounds
            invariant
                round <= self.rounds,
                attempts > 0,
                at == pre.readings.len() + 1,
                m >= 1,
                pre == old(self)@,
                self.wf(),
                self.timer() == old(self).timer(),
                extends(pre.readings, self@.readings, 1 + 3 * m),
                c == (Collector {
                    pool: pre.pool(),
                    prev_time: self@.readings[at - 1],
                    last_delta: 0,
                    last_delta2: 0,
                }),
                collector(self@, ec) == run(c, self@.readings, at, m),
                yields(c, self@.readings, at, m) == round,
                stuck_row(c, self@.readings, at, m) == 0,
                pre.rounds > 0,
                forall|j: nat|
                    j < m ==> #[trigger] goes_on(
                        c,
                        self@.readings,
                        at,
                        j,
                        pre.rounds,
                        attempts,
                    ),
                self@ == (RngState {
                    data: self@.data,
                    mem_index: self@.mem_index,
                    readings: self@.readings,
                    ..pre
                }),
            decreases self.rounds - round,
        {
            let ghost log = self@.readings;
            // If a stuck measurement is received, repeat measurement.
            let found: bool = self.collect_round(&mut ec, attempts);
            let ghost now = self@.readings;
            let ghost k = measurements(now, log.len() as int);
            proof {
                assert(at + 3 * m == log.len());
                assert(agree(log, now, at, at + 3 * m));
                lemma_run_frame(c, log, now, at, m);
                lemma_yields_frame(c, log, now, at, m);
                lemma_run_joins(c, now, at, m, k);
                lemma_stuck_joins(c, now, at, m, k);
                let mid = run(c, now, at, m);
                assert forall|j: int| m <= j < m + k - 1 implies #[trigger] stuck_in_run(
                    c,
                    now,
                    at,
                    j,
                ) by {
                    assert(stuck_in_run(mid, now, at + 3 * m, j - m));
                }
                assert(found == !stuck_in_run(mid, now, at + 3 * m, k - 1));
                assert(found == !stuck_in_run(c, now, at, m + k - 1));
                assert forall|j: nat| j < m + k implies #[trigger] goes_on(
                    c,
                    now,
                    at,
                    j,
                    pre.rounds,
                    attempts,
                ) by {
                    if j < m {
                        assert(goes_on(c, log, at, j, pre.rounds, attempts));
                        lemma_yields_frame(c, log, now, at, j);
                    } else {
                        lemma_stuck_yields_nothing(c, now, at, m, (j - m) as nat);
                    }
                }
                lemma_stuck_yields_nothing(c, now, at, m, (k - 1) as nat);
                m = m + k;
            }
            if !found {
                return Err(TimerError::TooManyStuck);
            }
            round = round + 1;
        }

        // Do a single read from the memory to make sure the Memory Access noise
        // source is not optimised out.
        black_box(ec.mem[0]);

        self.stir_pool();
        Ok(self.data)
    }

    /// Collects the entropy for one 64-bit number.
    ///
    /// Stuck measurements are repeated. The collection only gives up if the timer
    /// has suddenly become broken: after `STUCK_LIMIT` of them in a row.
    pub fn gen_entropy(&mut self) -> (r: Result<u64, TimerError>)
        requires
            old(self).wf(),
        ensures
            final(self).wf(),
            final(self).timer() == old(self).timer(),
            entropy_spec(old(self)@, final(self)@, STUCK_LIMIT, r),
    {
        self.gen_entropy_within(STUCK_LIMIT)
    }

    /// Runs both noise sources once: the memory access noise source, then the CPU
    /// jitter noise source, which injects `time` into the pool.
    pub fn run_noise_sources(
        &mut self,
        mem: &mut [u8; MEMORY_SIZE],
        time: u64,
        var_rounds: bool,
    )
        requires
            old(self).wf(),
        ensures
            final(self).wf(),
            final(self).timer() == old(self).timer(),
            extends(
                old(self)@.readings,
                final(self)@.readings,
                if var_rounds {
                    2
                } else {
                    0
                },
            ),
            ({
                let reading = optional(
                    final(self)@.readings,
                    old(self)@.readings.len() as int,
                    var_rounds,
                );
                let pool = after_noise(old(self)@.pool(), time, reading);
                let count = accesses(old(self)@.data, reading);
                &&& final(self)@ == (RngState {
                    data: pool.data,
                    mem_index: pool.mem_index,
                    readings: final(self)@.readings,
                    ..old(self)@
                })
                &&& forall|l: int|
                    0 <= l < MEMORY_SIZE ==> #[trigger] final(mem)@[l] == (old(mem)@[l] + hits(
                        old(self)@.mem_index,
                        count as nat,
                        l,
                    )) % 256
            }),
    {
        self.memaccess(mem, var_rounds);
        self.lfsr_time(time, var_rounds);
    }

    /// Basic quality tests on the timer, by measuring CPU timing jitter a few
    /// hundred times.
    ///
    /// If successful, this will return the estimated number of rounds necessary
    /// to collect 64 bits of entropy. Otherwise a [`TimerError`] with the cause of
    /// the failure will be returned.
    pub fn test_timer(&mut self) -> (r: Result<u8, TimerError>)
        requires
            old(self).wf(),
        ensures
            final(self).wf(),
            final(self).timer() == old(self).timer(),
            test_spec(old(self)@, final(self)@, r),
            r matches Ok(rounds) ==> 2 <= rounds <= 128,
    {
        // We could add a check for system capabilities such as `clock_getres` or
        // check for `CONFIG_X86_TSC`, but it does not make much sense as the
        // following sanity checks verify that we have a high-resolution timer.
        let ghost pre = self@;
        let ghost at = pre.readings.len() as int + 1;
        let mut ec = EcState::new(self.read_timer());
        let mut test = TimerTest::new();
        assert(test.samples@ =~= samples_of(self@.readings, at, 0));

        let mut i: u64 = 0;
        while i < SAMPLES
            invariant
                i <= SAMPLES,
                pre == old(self)@,
                at == pre.readings.len() + 1,
                self.wf(),
                self.timer() == old(self).timer(),
                test.wf(),
                test.is_followed_by(ec),
                test.taken == i,
                test.samples@ == samples_of(self@.readings, at, i as nat),
                forall|j: int| 0 <= j < i ==> (#[trigger] test.samples@[j]).fault() is None,
                extends(pre.readings, self@.readings, (1 + 4 * i) as nat),
                ({
                    let pool = noise_run(pre.pool(), self@.readings, at, i as nat);
                    self@ == (RngState {
                        data: pool.data,
                        mem_index: pool.mem_index,
                        readings: self@.readings,
                        ..pre
                    })
                }),
            decreases SAMPLES - i,
        {
            let ghost log = self@.readings;
            let ghost s = test.samples@;
            // Measure time delta of core entropy collection logic
            let time: u64 = self.read_timer();
            self.run_noise_sources(&mut ec.mem, time, true);
            let time2: u64 = self.read_timer();

            proof {
                let now = self@.readings;
                assert(agree(log, now, at, at + 4 * i));
                lemma_noise_run_frame(pre.pool(), log, now, at, i as nat);
                let longer = samples_of(now, at, (i + 1) as nat);
                assert(longer.drop_last() == s);
                assert(longer == s.push((Sample { start: time, end: time2 })));
                assert(test_runs(pre, self@) == i + 1);
                assert forall|j: int| 0 <= j < longer.len() - 1 implies (
                #[trigger] longer[j]).fault() is None by {
                    assert(longer[j] == s[j]);
                }
            }
            test.sample(&mut ec, time, time2)?;
            i = i + 1;
        }

        // Do a single read from the memory to make sure the Memory Access noise
        // source is not optimised out.
        black_box(ec.mem[0]);

        proof {
            assert(test_runs(pre, self@) == SAMPLES);
            let s = test.samples@;
            assert(s.last() == s[s.len() - 1]);
        }
        test.verdict()
    }

    /// Statistical test: return the timer delta of one normal run of the
    /// `JitterEntropy` entropy collector.
    ///
    /// Setting `var_rounds` to `true` will execute the memory access and the CPU
    /// jitter noise sources a variable amount of times (just like a real
    /// `JitterEntropy` round).
    ///
    /// Setting `var_rounds` to `false` will execute the noise sources the minimal
    /// number of times. This can be used to measure the minimum amount of entropy
    /// one round of entropy collector can collect in the worst case.
    pub fn timer_stats(&mut self, var_rounds: bool) -> (r: i64)
        requires
            old(self).wf(),
        ensures
            final(self).wf(),
            final(self).timer() == old(self).timer(),
            extends(
                old(self)@.readings,
                final(self)@.readings,
                if var_rounds {
                    2
                } else {
                    0
                },
            ),
            exists|time: u64, time2: u64| #[trigger]
                stats_spec(old(self)@, final(self)@, var_rounds, time, time2, r) && is_nstime(time)
                    && is_nstime(time2) && was_read(
                    SystemClock,
                    *old(self),
                    Seq::empty(),
                    time,
                ) && was_read(SystemClock, *final(self), seq![time], time2),
    {
        let mut clock = LoggedTimer::new(SystemClock);
        let r: i64 = self.stats_with_clock(&mut clock, var_rounds);
        proof {
            let time = clock.readings()[0];
            assert(Seq::<u64>::empty().push(time) =~= seq![time]);
        }
        r
    }

    /// Statistical test as in [`timer_stats`](JitterRng::timer_stats): what one run
    /// of the noise sources takes, by any clock. The clock is read once before the run,
    /// with the generator as it was, and once after it, with the generator as it is
    /// then. The first value goes into the pool.
    pub fn stats_with_clock<C: Timer>(
        &mut self,
        clock: &mut LoggedTimer<C>,
        var_rounds: bool,
    ) -> (r: i64)
        requires
            old(self).wf(),
            old(clock).timer().is_ready(),
        ensures
            final(self).wf(),
            final(self).timer() == old(self).timer(),
            extends(
                old(self)@.readings,
                final(self)@.readings,
                if var_rounds {
                    2
                } else {
                    0
                },
            ),
            final(clock).timer() == old(clock).timer(),
            extends(old(clock).readings(), final(clock).readings(), 2),
            ({
                let at = old(clock).readings().len() as int;
                let time = final(clock).readings()[at];
                let time2 = final(clock).readings()[at + 1];
                &&& stats_spec(old(self)@, final(self)@, var_rounds, time, time2, r)
                &&& final(clock).timer().may_give(time)
                &&& final(clock).timer().may_give(time2)
                &&& was_read(final(clock).timer(), *old(self), old(clock).readings(), time)
                &&& was_read(
                    final(clock).timer(),
                    *final(self),
                    old(clock).readings().push(time),
                    time2,
                )
            }),
    {
        let mut mem: [u8; MEMORY_SIZE] = [0u8;MEMORY_SIZE];

        let time: u64 = clock.read_beside(&*self);
        self.run_noise_sources(&mut mem, time, var_rounds);
        let time2: u64 = clock.read_beside(&*self);
        long_delta(time, time2)
    }

    /// Generates a 32-bit number: one half of a 64-bit number, of which the other
    /// half comes next.
    pub fn next_u32(&mut self) -> (r: Result<u32, TimerError>)
        requires
            old(self).wf(),
        ensures
            final(self).wf(),
            final(self).timer() == old(self).timer(),
            next_u32_spec(old(self)@, final(self)@, r),
    {
        // We want to use both parts of the generated entropy
        if self.data_half_used {
            self.data_half_used = false;
            let number: u64 = self.data;
            proof {
                lemma_halves(number);
            }
            Ok((number >> 32) as u32)
        } else {
            let number: u64 = self.next_u64()?;
            self.data_half_used = true;
            proof {
                lemma_halves(number);
            }
            #[verifier::truncate]
            let half: u32 = number as u32;
            Ok(half)
        }
    }

    /// Generates a 64-bit number.
    pub fn next_u64(&mut self) -> (r: Result<u64, TimerError>)
        requires
            old(self).wf(),
        ensures
            final(self).wf(),
            final(self).timer() == old(self).timer(),
            next_u64_spec(old(self)@, final(self)@, r),
    {
        self.data_half_used = false;
        self.gen_entropy()
    }

    /// Fills `dest` with random bytes.
    ///
    /// The bytes are those of 32-bit numbers, the lowest first. This is faster for
    /// filling small slices (four bytes or less), while the overhead is
    /// negligible.
    pub fn fill_bytes(&mut self, dest: &mut [u8]) -> (r: Result<(), TimerError>)
        requires
            old(self).wf(),
        ensures
            final(self).wf(),
            final(self).timer() == old(self).timer(),
            fill_spec(old(self)@, final(self)@, old(dest)@, final(dest)@, r),
    {
        let len: usize = dest.len();
        let ghost mut states: Seq<RngState> = seq![self@];
        let ghost mut words: Seq<u32> = Seq::empty();
        let mut word: u32 = 0;
        let mut filled: usize = 0;
        while filled < len
            invariant
                filled <= len,
                len == dest@.len() == old(dest)@.len(),
                self.wf(),
                self.timer() == old(self).timer(),
                is_word_run(states, words),
                states[0] == old(self)@,
                states.last() == self@,
                words.len() == words_for(filled as int),
                filled % 4 != 0 ==> word == words.last(),
                forall|i: int|
                    0 <= i < len ==> #[trigger] dest@[i] == if i < filled {
                        byte_of(words[i / 4], i % 4)
                    } else {
                        old(dest)@[i]
                    },
            decreases len - filled,
        {
            let part: u32 = (filled % 4) as u32;
            if part == 0 {
                match self.next_u32() {
                    Ok(next) => {
                        word = next;
                        proof {
                            let longer = words.push(next);
                            let further = states.push(self@);
                            assert forall|i: int| 0 <= i < longer.len() implies next_u32_spec(
                                further[i],
                                further[i + 1],
                                Ok(#[trigger] longer[i]),
                            ) by {
                                if i < words.len() {
                                    assert(longer[i] == words[i]);
                                }
                            }
                            words = longer;
                            states = further;
                        }
                    },
                    Err(error) => {
                        assert(fill_run(
                            states,
                            words,
                            self@,
                            old(dest)@,
                            dest@,
                            Err(error),
                        ));
                        return Err(error);
                    },
                }
            }
            assert((word >> ((8 * part) as u32)) & 0xff <= 0xff) by (bit_vector);
            dest[filled] = ((word >> (8 * part)) & 0xff) as u8;
            filled = filled + 1;
        }
        assert(fill_run(states, words, self@, old(dest)@, dest@, Ok(())));
        Ok(())
    }

    /// Makes the generator ready for use: tests the timer, unless `cached_rounds`
    /// holds the result of an earlier test, and fills the pool. An empty cache holds
    /// 0; the result of a test that passes is put into it.
    pub fn start_up(&mut self, cached_rounds: &mut u8) -> (r: Result<(), TimerError>)
        requires
            old(self).wf(),
        ensures
            final(self).wf(),
            final(self).timer() == old(self).timer(),
            startup_spec(
                old(self)@,
                *old(cached_rounds),
                final(self)@,
                *final(cached_rounds),
                r,
            ),
    {
        let mut rounds: u8 = *cached_rounds;
        if rounds == 0 {
            // No result yet: run test.
            rounds = self.test_timer()?;
            *cached_rounds = rounds;
        }
        self.set_rounds(rounds);

        // Fill the pool.
        match self.gen_entropy() {
            Ok(_) => Ok(()),
            Err(error) => Err(error),
        }
    }

    /// Creates a new generator that reads `timer`, and starts it up.
    fn start(timer: T, cached_rounds: &mut u8) -> (r: Result<JitterRng<T>, TimerError>)
        requires
            timer.is_ready(),
        ensures
            match r {
                Ok(rng) => {
                    &&& rng.wf()
                    &&& rng.timer() == timer
                    &&& startup_spec(
                        RngState::initial(),
                        *old(cached_rounds),
                        rng@,
                        *final(cached_rounds),
                        Ok(()),
                    )
                },
                Err(error) => exists|post: RngState| #[trigger]
                    startup_spec(
                        RngState::initial(),
                        *old(cached_rounds),
                        post,
                        *final(cached_rounds),
                        Err(error),
                    ) && all_from(timer, post.readings),
            },
    {
        let mut state = JitterRng::from_timer(timer);
        match state.start_up(cached_rounds) {
            Ok(_) => Ok(state),
            Err(error) => Err(error),
        }
    }
}

impl<F: Fn() -> u64> JitterRng<CustomTimer<F>> {
    /// Creates a new `JitterRng` with a custom timer.
    ///
    /// The timer must have nanosecond precision.
    ///
    /// This method is more low-level than `new()`. It is the responsibility of
    /// the caller to run [`test_timer`](JitterRng::test_timer) before using any
    /// numbers generated with `JitterRng`, and optionally call
    /// [`set_rounds`](JitterRng::set_rounds). Also it is important to consume at
    /// least one `u64` before using the first result to initialize the entropy
    /// collection pool.
    pub fn new_with_timer(timer: F) -> (r: JitterRng<CustomTimer<F>>)
        requires
            call_requires(timer, ()),
        ensures
            r.wf(),
            r.timer() == (CustomTimer { function: timer }),
            forall|time: u64| #[trigger]
                r.timer().may_give(time) <==> call_ensures(timer, (), time),
            r@ == RngState::initial(),
    {
        JitterRng::from_timer(CustomTimer { function: timer })
    }

    /// Creates a new `JitterRng` with a custom timer, and starts it up as
    /// [`new`](JitterRng::new) does. `cached_rounds` is the result of an earlier
    /// test of the same timer, or 0.
    ///
    /// Where this fails, the generator is dropped, and its readings with it. Which
    /// readings lead to which error is said by [`start_up`](JitterRng::start_up).
    pub fn start_with_timer(timer: F, cached_rounds: &mut u8) -> (r: Result<
        JitterRng<CustomTimer<F>>,
        TimerError,
    >)
        requires
            call_requires(timer, ()),
        ensures
            match r {
                Ok(rng) => {
                    &&& rng.wf()
                    &&& rng.timer() == (CustomTimer { function: timer })
                    &&& forall|time: u64| #[trigger]
                        rng.timer().may_give(time) <==> call_ensures(timer, (), time)
                    &&& startup_spec(
                        RngState::initial(),
                        *old(cached_rounds),
                        rng@,
                        *final(cached_rounds),
                        Ok(()),
                    )
                },
                Err(error) => exists|post: RngState| #[trigger]
                    startup_spec(
                        RngState::initial(),
                        *old(cached_rounds),
                        post,
                        *final(cached_rounds),
                        Err(error),
                    ) && (forall|i: int|
                        0 <= i < post.readings.len() ==> call_ensures(
                            timer,
                            (),
                            #[trigger] post.readings[i],
                        )) && all_from((CustomTimer { function: timer }), post.readings),
            },
    {
        JitterRng::start(CustomTimer { function: timer }, cached_rounds)
    }
}

impl JitterRng<SystemClock> {
    /// Creates a new `JitterRng`. Makes use of the system clock for a timer.
    ///
    /// During initialization CPU execution timing jitter is measured a few hundred
    /// times. If this does not pass basic quality tests, an error is returned. The
    /// test result is cached in `cached_rounds`, which makes subsequent calls with
    /// the same cache faster. An empty cache holds 0.
    ///
    /// Where this fails, the generator is dropped, and its readings with it. Which
    /// readings lead to which error is said by [`start_up`](JitterRng::start_up).
    pub fn new(cached_rounds: &mut u8) -> (r: Result<JitterRng<SystemClock>, TimerError>)
        ensures
            match r {
                Ok(rng) => {
                    &&& rng.wf()
                    &&& startup_spec(
                        RngState::initial(),
                        *old(cached_rounds),
                        rng@,
                        *final(cached_rounds),
                        Ok(()),
                    )
                },
                Err(error) => exists|post: RngState| #[trigger]
                    startup_spec(
                        RngState::initial(),
                        *old(cached_rounds),
                        post,
                        *final(cached_rounds),
                        Err(error),
                    ) && all_from(SystemClock, post.readings),
            },
    {
        JitterRng::start(SystemClock, cached_rounds)
    }
}

} // verus!
