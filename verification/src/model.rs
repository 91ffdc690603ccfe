//! What the generator does to its state, as a function of the timer readings
//! that it takes.

use vstd::prelude::*;

use crate::ec::EcState;
use crate::error::TimerError;
use crate::timer_test::{Sample, SAMPLES};

verus! {

use crate::bits::{folded, rotl};
use crate::ec::is_stuck;
use crate::memory::location;
use crate::pool::{lfsr_spec, stirred};
use crate::timer_test::verdict_spec;
use crate::timing::{delta_spec, difference32, widened};

/// The part of the generator's state that the noise sources work on.
pub struct Pool {
    /// The entropy pool.
    pub data: u64,
    /// Where the last walk over the memory ended.
    pub mem_index: int,
}

/// The state of the generator, together with all timer readings that it has
/// taken.
#[verifier::ext_equal]
pub struct RngState {
    /// The entropy pool, and the last number that was generated.
    pub data: u64,
    /// Number of measurements that go into each number.
    pub rounds: u8,
    /// Where the last walk over the memory ended.
    pub mem_index: int,
    /// Whether the lower half of `data` was handed out.
    pub half_used: bool,
    /// All timer readings so far, in order.
    pub readings: Seq<u64>,
}

impl RngState {
    /// What the noise sources work on.
    pub open spec fn pool(self) -> Pool {
        Pool { data: self.data, mem_index: self.mem_index }
    }

    /// The state before anything is done.
    pub open spec fn initial() -> RngState {
        RngState { data: 0, rounds: 64, mem_index: 0, half_used: false, readings: Seq::empty() }
    }
}

/// `after` goes on from `before` with `n` more readings.
pub open spec fn extends(before: Seq<u64>, after: Seq<u64>, n: nat) -> bool {
    &&& after.len() == before.len() + n
    &&& forall|i: int| 0 <= i < before.len() ==> #[trigger] after[i] == before[i]
}

/// The two logs hold the same readings from `from` up to `to`.
pub open spec fn agree(log1: Seq<u64>, log2: Seq<u64>, from: int, to: int) -> bool {
    forall|i: int| from <= i < to ==> #[trigger] log1[i] == log2[i]
}

/// The loop count that a reading gives: the reading, mixed with the pool, folded
/// down to `n_bits` bits.
pub open spec fn loop_count(data: u64, reading: u64, n_bits: u32) -> u32 {
    (folded(reading ^ data, n_bits as u64) % 0x1_0000_0000) as u32
}

/// Number of memory accesses in a run of the memory access noise source, at
/// least. With a reading, up to 15 more are made.
pub const MIN_ACCESSES: u32 = 128;

/// Number of memory accesses, with or without a reading that varies it.
pub open spec fn accesses(data: u64, reading: Option<u64>) -> int {
    match reading {
        Some(time) => MIN_ACCESSES + loop_count(data, time, 4),
        None => MIN_ACCESSES as int,
    }
}

/// Where a walk over the memory ends.
pub open spec fn index_after(pool: Pool, reading: Option<u64>) -> int {
    location(pool.mem_index, accesses(pool.data, reading))
}

/// The reading at position `i`, if it is taken.
pub open spec fn optional(log: Seq<u64>, i: int, taken: bool) -> Option<u64> {
    if taken {
        Some(log[i])
    } else {
        None
    }
}

/// One run of both noise sources: a walk over the memory, then `time` goes into
/// the pool.
pub open spec fn after_noise(pool: Pool, time: u64, reading: Option<u64>) -> Pool {
    Pool { data: lfsr_spec(pool.data, time), mem_index: index_after(pool, reading) }
}

/// The pool after `n` runs of the noise sources in a timer test. Each takes four
/// readings, from `at` on: the time that goes into the pool, the loop counts of
/// the two sources, and the time afterwards.
pub open spec fn noise_run(pool: Pool, log: Seq<u64>, at: int, n: nat) -> Pool
    decreases n,
{
    if n == 0 {
        pool
    } else {
        let here = at + 4 * (n - 1);
        after_noise(noise_run(pool, log, at, (n - 1) as nat), log[here], Some(log[here + 1]))
    }
}

/// The samples of `n` runs of the noise sources in a timer test.
pub open spec fn samples_of(log: Seq<u64>, at: int, n: nat) -> Seq<Sample> {
    Seq::new(n, |i: int| Sample { start: log[at + 4 * i], end: log[at + 4 * i + 3] })
}

/// The samples are those of a whole timer test: it ends at the first faulty
/// sample, or when all samples are taken.
pub open spec fn is_whole_test(s: Seq<Sample>) -> bool {
    &&& 0 < s.len() <= SAMPLES
    &&& forall|i: int| 0 <= i < s.len() - 1 ==> (#[trigger] s[i]).fault() is None
    &&& s.len() < SAMPLES ==> s.last().fault() is Some
}

/// What a whole timer test says of the timer.
pub open spec fn test_outcome(s: Seq<Sample>) -> Result<u8, TimerError> {
    match s.last().fault() {
        Some(error) => Err(error),
        None => verdict_spec(s),
    }
}

/// How many runs of the noise sources a timer test made, by the readings that
/// it took.
pub open spec fn test_runs(pre: RngState, post: RngState) -> nat {
    ((post.readings.len() - pre.readings.len() - 1) / 4) as nat
}

/// A timer test takes the generator from one state to another, and gives the
/// result `r`.
pub open spec fn test_spec(pre: RngState, post: RngState, r: Result<u8, TimerError>) -> bool {
    let n = test_runs(pre, post);
    let at = pre.readings.len() as int + 1;
    let s = samples_of(post.readings, at, n);
    let pool = noise_run(pre.pool(), post.readings, at, n);
    &&& extends(pre.readings, post.readings, 1 + 4 * n)
    &&& is_whole_test(s)
    &&& r == test_outcome(s)
    &&& post == RngState {
        data: pool.data,
        mem_index: pool.mem_index,
        readings: post.readings,
        ..pre
    }
}

/// What a measurement works on: the pool, and the time values that the entropy
/// collection keeps.
pub struct Collector {
    pub pool: Pool,
    pub prev_time: u64,
    pub last_delta: i32,
    pub last_delta2: i32,
}

/// The generator and an entropy collection, as a measurement sees them.
pub open spec fn collector(s: RngState, ec: EcState) -> Collector {
    Collector {
        pool: s.pool(),
        prev_time: ec.prev_time,
        last_delta: ec.last_delta,
        last_delta2: ec.last_delta2,
    }
}

/// Whether a measurement that reads the time `time` is stuck.
pub open spec fn measures_stuck(c: Collector, time: u64) -> bool {
    is_stuck(c.last_delta, c.last_delta2, delta_spec(c.prev_time, time))
}

/// One measurement. It takes three readings, from `at` on: the loop count of the
/// memory walk, the time, and the loop count of the shift register, which only
/// affects the run time. The time delta goes into the pool, which is then turned
/// by seven bits, unless the measurement is stuck.
pub open spec fn measured(c: Collector, log: Seq<u64>, at: int) -> Collector {
    let time = log[at + 1];
    let delta = delta_spec(c.prev_time, time);
    let data = lfsr_spec(c.pool.data, widened(delta));
    Collector {
        pool: Pool {
            data: if measures_stuck(c, time) {
                data
            } else {
                rotl(data, 7)
            },
            mem_index: index_after(c.pool, Some(log[at])),
        },
        prev_time: time,
        last_delta: delta,
        last_delta2: difference32(c.last_delta, delta),
    }
}

/// The state after `m` measurements.
pub open spec fn run(c: Collector, log: Seq<u64>, at: int, m: nat) -> Collector
    decreases m,
{
    if m == 0 {
        c
    } else {
        measured(run(c, log, at, (m - 1) as nat), log, at + 3 * (m - 1))
    }
}

/// Whether measurement `j` of a run, counted from 0, is stuck.
pub open spec fn stuck_in_run(c: Collector, log: Seq<u64>, at: int, j: int) -> bool {
    measures_stuck(run(c, log, at, j as nat), log[at + 3 * j + 1])
}

/// How many of the first `m` measurements of a run yielded entropy: those that
/// are not stuck, leaving aside the first, which only primes the collection.
pub open spec fn yields(c: Collector, log: Seq<u64>, at: int, m: nat) -> nat
    decreases m,
{
    if m <= 1 {
        0
    } else {
        yields(c, log, at, (m - 1) as nat) + if stuck_in_run(c, log, at, m - 1) {
            0nat
        } else {
            1nat
        }
    }
}

/// How many measurements in a row are stuck at the end of the first `m` of a run,
/// leaving aside the first.
pub open spec fn stuck_row(c: Collector, log: Seq<u64>, at: int, m: nat) -> nat
    decreases m,
{
    if m <= 1 || !stuck_in_run(c, log, at, m - 1) {
        0
    } else {
        stuck_row(c, log, at, (m - 1) as nat) + 1
    }
}

/// Whether an entropy collection goes on after `m` measurements: fewer of them
/// than there are rounds have yielded entropy, and fewer than `attempts` in a row
/// are stuck.
pub open spec fn goes_on(
    c: Collector,
    log: Seq<u64>,
    at: int,
    m: nat,
    rounds: u8,
    attempts: u64,
) -> bool {
    yields(c, log, at, m) < rounds && stuck_row(c, log, at, m) < attempts
}

/// Number of memory accesses that the first `m` measurements of a run make. Each
/// goes on from where the one before it ended, so that together they are one long
/// walk.
pub open spec fn run_accesses(c: Collector, log: Seq<u64>, at: int, m: nat) -> nat
    decreases m,
{
    if m == 0 {
        0
    } else {
        let k = (m - 1) as nat;
        run_accesses(c, log, at, k) + accesses(
            run(c, log, at, k).pool.data,
            Some(log[at + 3 * k]),
        ) as nat
    }
}

/// How many measurements were made from `at` on.
pub open spec fn measurements(log: Seq<u64>, at: int) -> nat {
    ((log.len() - at) / 3) as nat
}

/// A round that starts in `c`, at the end of the log `before`, and ends in
/// `done` with the log `after`. It measures until a measurement is not stuck,
/// for at most `attempts` times; `r` says whether there was one.
pub open spec fn round_spec(
    c: Collector,
    before: Seq<u64>,
    done: Collector,
    after: Seq<u64>,
    attempts: u64,
    r: bool,
) -> bool {
    let at = before.len() as int;
    let m = measurements(after, at);
    &&& 1 <= m <= attempts
    &&& extends(before, after, 3 * m)
    &&& done == run(c, after, at, m)
    &&& forall|j: int| 0 <= j < m - 1 ==> #[trigger] stuck_in_run(c, after, at, j)
    &&& r == !stuck_in_run(c, after, at, m - 1)
    &&& !r ==> m == attempts
}

/// An entropy collection takes the generator from one state to another, and
/// gives the result `r`.
///
/// It takes a first time stamp and makes a measurement to prime the collection.
/// Then it measures until as many measurements as there are rounds have yielded
/// entropy, and stirs the pool, which is the number that is generated. It gives
/// up when `attempts` measurements in a row are stuck.
pub open spec fn entropy_spec(
    pre: RngState,
    post: RngState,
    attempts: u64,
    r: Result<u64, TimerError>,
) -> bool {
    let log = post.readings;
    let at = pre.readings.len() as int + 1;
    let m = measurements(log, at);
    let c = Collector {
        pool: pre.pool(),
        prev_time: log[at - 1],
        last_delta: 0,
        last_delta2: 0,
    };
    let pool = run(c, log, at, m).pool;
    &&& extends(pre.readings, log, 1 + 3 * m)
    &&& post == RngState {
        data: if r is Ok {
            stirred(pool.data)
        } else {
            pool.data
        },
        mem_index: pool.mem_index,
        readings: log,
        ..pre
    }
    &&& m > 0
    &&& forall|k: nat| k < m ==> #[trigger] goes_on(c, log, at, k, pre.rounds, attempts)
    &&& match r {
        Ok(number) => {
            &&& number == post.data
            &&& yields(c, log, at, m) == pre.rounds
        },
        Err(error) => {
            &&& error == TimerError::TooManyStuck
            &&& yields(c, log, at, m) < pre.rounds
            &&& stuck_row(c, log, at, m) == attempts
        },
    }
}

/// How many stuck measurements in a row it takes to give up on a timer. A timer
/// that gets there has become broken: at a measurement per microsecond, it has
/// been stuck for half a million years.
pub const STUCK_LIMIT: u64 = 0xffff_ffff_ffff_ffff;

/// Generating a 64-bit number takes the generator from one state to another, and
/// gives the result `r`. What is left of the number before is dropped.
pub open spec fn next_u64_spec(pre: RngState, post: RngState, r: Result<u64, TimerError>) -> bool {
    entropy_spec((RngState { half_used: false, ..pre }), post, STUCK_LIMIT, r)
}

/// The lower half of a number.
pub open spec fn low_half(number: u64) -> u32 {
    (number % 0x1_0000_0000) as u32
}

/// The upper half of a number.
pub open spec fn high_half(number: u64) -> u32 {
    (number / 0x1_0000_0000) as u32
}

/// Generating a 32-bit number takes the generator from one state to another, and
/// gives the result `r`: the upper half of the last number, if only its lower half
/// was used, and the lower half of a new number otherwise.
pub open spec fn next_u32_spec(pre: RngState, post: RngState, r: Result<u32, TimerError>) -> bool {
    if pre.half_used {
        &&& r == Ok::<u32, TimerError>(high_half(pre.data))
        &&& post == RngState { half_used: false, ..pre }
    } else {
        match r {
            Ok(half) => {
                &&& next_u64_spec(pre, RngState { half_used: false, ..post }, Ok(post.data))
                &&& half == low_half(post.data)
                &&& post.half_used
            },
            Err(error) => next_u64_spec(pre, post, Err(error)),
        }
    }
}

/// Byte `k` of a word, the lowest first.
pub open spec fn byte_of(word: u32, k: int) -> u8 {
    ((word >> ((8 * k) as u32)) & 0xff) as u8
}

/// Number of words that it takes to fill `len` bytes.
pub open spec fn words_for(len: int) -> int {
    (len + 3) / 4
}

/// The words were generated one after the other, from the first of the states to
/// the last.
pub open spec fn is_word_run(states: Seq<RngState>, words: Seq<u32>) -> bool {
    &&& states.len() == words.len() + 1
    &&& forall|i: int|
        0 <= i < words.len() ==> next_u32_spec(
            states[i],
            states[i + 1],
            Ok(#[trigger] words[i]),
        )
}

/// Filling bytes takes the generator through `states` to the state `post`, and
/// turns `before` into `after`: the bytes of the generated words, one word after
/// the other, the lowest byte first. Where a word cannot be generated, the bytes
/// from there on keep what they held.
pub open spec fn fill_run(
    states: Seq<RngState>,
    words: Seq<u32>,
    post: RngState,
    before: Seq<u8>,
    after: Seq<u8>,
    r: Result<(), TimerError>,
) -> bool {
    &&& is_word_run(states, words)
    &&& after.len() == before.len()
    &&& forall|i: int|
        0 <= i < after.len() ==> #[trigger] after[i] == if i < 4 * words.len() {
            byte_of(words[i / 4], i % 4)
        } else {
            before[i]
        }
    &&& match r {
        Ok(_) => words.len() == words_for(after.len() as int) && post == states.last(),
        Err(error) => words.len() < words_for(after.len() as int) && next_u32_spec(
            states.last(),
            post,
            Err(error),
        ),
    }
}

/// Filling bytes takes the generator from one state to another, turns `before`
/// into `after`, and gives the result `r`.
pub open spec fn fill_spec(
    pre: RngState,
    post: RngState,
    before: Seq<u8>,
    after: Seq<u8>,
    r: Result<(), TimerError>,
) -> bool {
    exists|states: Seq<RngState>, words: Seq<u32>| #[trigger]
        fill_run(states, words, post, before, after, r) && states[0] == pre
}

/// Starting a generator up takes it from one state to another, and gives the
/// result `r`. Where no number of rounds is cached yet, that is where the cache
/// holds 0, the timer is tested first, and the result is cached. Then a first
/// number is generated, which fills the pool.
pub open spec fn startup_spec(
    pre: RngState,
    cached_before: u8,
    post: RngState,
    cached_after: u8,
    r: Result<(), TimerError>,
) -> bool {
    if cached_before > 0 {
        &&& cached_after == cached_before
        &&& first_number_spec(RngState { rounds: cached_before, ..pre }, post, r)
    } else {
        exists|tested: RngState, outcome: Result<u8, TimerError>| #[trigger]
            test_spec(pre, tested, outcome) && match outcome {
                Ok(rounds) => {
                    &&& cached_after == rounds
                    &&& first_number_spec(RngState { rounds, ..tested }, post, r)
                },
                Err(error) => {
                    &&& cached_after == 0
                    &&& post == tested
                    &&& r == Err::<(), TimerError>(error)
                },
            }
    }
}

/// Generating the first number, of which only the effect on the pool is used.
pub open spec fn first_number_spec(
    pre: RngState,
    post: RngState,
    r: Result<(), TimerError>,
) -> bool {
    match r {
        Ok(_) => entropy_spec(pre, post, STUCK_LIMIT, Ok(post.data)),
        Err(error) => entropy_spec(pre, post, STUCK_LIMIT, Err(error)),
    }
}

} // verus!
