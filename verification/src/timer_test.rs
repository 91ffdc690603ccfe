//! Basic quality tests on a timer, and the number of rounds that it calls for.

use vstd::prelude::*;

use crate::ec::EcState;
use crate::error::TimerError;
use crate::timing::{delta, difference, widen};

verus! {

use crate::timing::{delta_spec, difference32, widened};
use vstd::arithmetic::logarithm::{lemma_log_is_ordered, log};
use vstd::std_specs::bits::u64_leading_zeros;

/// Number of samples that are evaluated. It takes some loops to identify edge
/// systems; 100 is definitely too little.
pub const TESTLOOPCOUNT: u64 = 300;

/// Number of samples at the start that only clear the caches, and are not
/// evaluated.
pub const CLEARCACHE: u64 = 100;

/// Number of samples that a test takes.
pub const SAMPLES: u64 = CLEARCACHE + TESTLOOPCOUNT;

/// How often the time may run backwards. This can happen if the clock is being
/// adjusted by NTP operations; such an operation during the test should not make
/// it fail.
pub const BACKWARDS_LIMIT: u64 = 3;

/// Nine tenths of the evaluated samples.
pub const MOST_SAMPLES: u64 = TESTLOOPCOUNT * 9 / 10;

/// A pair of timer readings, taken before and after a run of the noise sources.
pub struct Sample {
    pub start: u64,
    pub end: u64,
}

impl Sample {
    /// The time that the run took.
    pub open spec fn delta(self) -> i32 {
        delta_spec(self.start, self.end)
    }

    /// What makes the sample alone reason enough to refuse the timer: it does
    /// not work, or is not fine grained enough to see the run.
    pub open spec fn fault(self) -> Option<TimerError> {
        if self.start == 0 || self.end == 0 {
            Some(TimerError::NoTimer)
        } else if self.delta() == 0 {
            Some(TimerError::CoarseTimer)
        } else {
            None
        }
    }
}

/// The delta of sample `i`, where it is evaluated, and 0 before.
pub open spec fn delta_at(s: Seq<Sample>, i: int) -> i32 {
    if i < CLEARCACHE {
        0
    } else {
        s[i].delta()
    }
}

/// The delta of deltas at sample `i`.
pub open spec fn delta2_at(s: Seq<Sample>, i: int) -> i32 {
    difference32(delta_at(s, i - 1), delta_at(s, i))
}

/// Whether sample `i` is stuck: its first, second or third derivation is zero.
pub open spec fn stuck_at(s: Seq<Sample>, i: int) -> bool {
    ||| delta_at(s, i) == 0
    ||| delta2_at(s, i) == 0
    ||| difference32(delta2_at(s, i), delta2_at(s, i - 1)) == 0
}

/// By how much two successive deltas vary. As everywhere in the test, the
/// arithmetic wraps around.
pub open spec fn change(from: i32, to: i32) -> u64 {
    let d = difference32(to, from);
    widened(
        if d < 0 {
            difference32(0, d)
        } else {
            d
        },
    )
}

/// How many of the evaluated samples are stuck.
pub open spec fn stuck_count(s: Seq<Sample>) -> nat
    decreases s.len(),
{
    if s.len() <= CLEARCACHE {
        0
    } else {
        stuck_count(s.drop_last()) + if stuck_at(s, s.len() - 1) {
            1nat
        } else {
            0nat
        }
    }
}

/// In how many of the evaluated samples the timer did not increase.
pub open spec fn backwards_count(s: Seq<Sample>) -> nat
    decreases s.len(),
{
    if s.len() <= CLEARCACHE {
        0
    } else {
        backwards_count(s.drop_last()) + if s.last().end > s.last().start {
            0nat
        } else {
            1nat
        }
    }
}

/// In how many of the evaluated samples the timer moved by a multiple of 100.
pub open spec fn coarse_count(s: Seq<Sample>) -> nat
    decreases s.len(),
{
    if s.len() <= CLEARCACHE {
        0
    } else {
        coarse_count(s.drop_last()) + if s.last().delta() as int % 100 == 0 {
            1nat
        } else {
            0nat
        }
    }
}

/// By how much the deltas of the evaluated samples vary, all together.
pub open spec fn variation(s: Seq<Sample>) -> u64
    decreases s.len(),
{
    if s.len() <= CLEARCACHE {
        0
    } else {
        variation(s.drop_last()).wrapping_add(
            change(delta_at(s, s.len() - 2), delta_at(s, s.len() - 1)),
        )
    }
}

/// The number of rounds that collect 64 bits of entropy, where the deltas vary
/// by `average`: about 64 / (log2(average) / 2), rounded up. Variations below 2
/// are too small to give any number.
pub open spec fn rounds_spec(average: u64) -> Option<u8> {
    if average < 2 {
        None
    } else if average < 16 {
        Some(
            seq![0u8, 0, 128, 81, 64, 56, 50, 46, 43, 41, 39, 38, 36, 35, 34, 33][average as int],
        )
    } else {
        let bits = log(2, average as int) + 1;
        Some(((128 + bits - 1) / bits) as u8)
    }
}

/// What the test says of a timer after all samples are taken.
pub open spec fn verdict_spec(s: Seq<Sample>) -> Result<u8, TimerError> {
    if backwards_count(s) > BACKWARDS_LIMIT {
        Err(TimerError::NotMonotonic)
    } else if variation(s) < TESTLOOPCOUNT {
        Err(TimerError::TinyVariantions)
    } else if coarse_count(s) > MOST_SAMPLES {
        Err(TimerError::CoarseTimer)
    } else if stuck_count(s) > MOST_SAMPLES {
        Err(TimerError::TooManyStuck)
    } else {
        match rounds_spec((variation(s) / TESTLOOPCOUNT) as u64) {
            Some(rounds) => Ok(rounds),
            None => Err(TimerError::TinyVariantions),
        }
    }
}

pub(crate) proof fn lemma_bit_length(x: u64)
    requires
        x > 0,
    ensures
        64 - u64_leading_zeros(x) == log(2, x as int) + 1,
        log(2, x as int) >= 0,
    decreases x,
{
    reveal_with_fuel(u64_leading_zeros, 2);
    reveal(log);
    if x >= 2 {
        lemma_bit_length(x / 2);
    }
}

/// Estimates the number of rounds that are necessary for 64 bits of entropy,
/// from the average variation of the time deltas.
///
/// The estimate is very simple and conservative: a round is taken to yield
/// `log2(average) / 2` bits.
pub fn estimate_rounds(average: u64) -> (r: Option<u8>)
    ensures
        r == rounds_spec(average),
        r matches Some(rounds) ==> 2 <= rounds <= 128,
{
    if average >= 16 {
        proof {
            lemma_bit_length(average);
            lemma_log_is_ordered(2, 16, average as int);
            assert(log(2, 16) == 4) by {
                reveal_with_fuel(log, 6);
            }
        }
        let log2: u32 = 64 - average.leading_zeros();
        let rounds: u32 = (64u32 * 2 + log2 - 1) / log2;
        assert(2 <= rounds <= 26) by (nonlinear_arith)
            requires
                5 <= log2 <= 64,
                rounds == (128 + log2 - 1) / log2 as int,
        ;
        Some(rounds as u8)
    } else if average < 2 {
        None
    } else {
        // For values < 16 the rounding error becomes too large, use a lookup
        // table.
        let log2_lookup: [u8; 16] = [
            0,
            0,
            128,
            81,
            64,
            56,
            50,
            46,
            43,
            41,
            39,
            38,
            36,
            35,
            34,
            33,
        ];
        Some(log2_lookup[average as usize])
    }
}

/// By how much a delta varies from the one before it.
pub fn absolute_change(from: i32, to: i32) -> (r: u64)
    ensures
        r == change(from, to),
{
    let varied: i32 = difference(to, from);
    widen(
        if varied < 0 {
            difference(0, varied)
        } else {
            varied
        },
    )
}

/// The running totals of a timer test.
pub struct TimerTest {
    /// Sum of the variations between successive deltas.
    pub delta_sum: u64,
    /// The delta of the last evaluated sample.
    pub old_delta: i32,
    /// How often the timer did not increase.
    pub time_backwards: u64,
    /// How often the timer moved by a multiple of 100.
    pub count_mod: u64,
    /// How often the stuck test failed.
    pub count_stuck: u64,
    /// How many samples were taken.
    pub taken: u64,
    /// The samples that were taken.
    pub samples: Ghost<Seq<Sample>>,
}

impl TimerTest {
    /// The totals are those of the samples.
    pub open spec fn wf(self) -> bool {
        let s = self.samples@;
        &&& s.len() == self.taken <= SAMPLES
        &&& self.delta_sum == variation(s)
        &&& self.old_delta == delta_at(s, s.len() - 1)
        &&& self.time_backwards == backwards_count(s) <= s.len()
        &&& self.count_mod == coarse_count(s) <= s.len()
        &&& self.count_stuck == stuck_count(s) <= s.len()
    }

    /// The deltas that `ec` holds for the stuck test are those of the samples.
    pub open spec fn is_followed_by(self, ec: EcState) -> bool {
        let s = self.samples@;
        &&& ec.last_delta == delta_at(s, s.len() - 1)
        &&& ec.last_delta2 == delta2_at(s, s.len() - 1)
    }

    /// A test that has taken no sample yet.
    pub fn new() -> (r: TimerTest)
        ensures
            r.wf(),
            r.samples@ == Seq::<Sample>::empty(),
            forall|ec: EcState|
                ec.last_delta == 0 && ec.last_delta2 == 0 ==> #[trigger] r.is_followed_by(ec),
    {
        TimerTest {
            delta_sum: 0,
            old_delta: 0,
            time_backwards: 0,
            count_mod: 0,
            count_stuck: 0,
            taken: 0,
            samples: Ghost(Seq::empty()),
        }
    }

    /// Takes in a sample: refuses the timer if the sample is faulty, and
    /// otherwise adds it to the totals, once the caches are clear.
    pub fn sample(&mut self, ec: &mut EcState, time: u64, time2: u64) -> (r: Result<
        (),
        TimerError,
    >)
        requires
            old(self).wf(),
            old(self).is_followed_by(*old(ec)),
            old(self).taken < SAMPLES,
        ensures
            final(ec).prev_time == old(ec).prev_time,
            final(ec).mem == old(ec).mem,
            match (Sample { start: time, end: time2 }).fault() {
                Some(error) => r == Err::<(), TimerError>(error) && *final(self) == *old(self)
                    && *final(ec) == *old(ec),
                None => {
                    &&& r is Ok
                    &&& final(self).wf()
                    &&& final(self).is_followed_by(*final(ec))
                    &&& final(self).samples@ == old(self).samples@.push(
                        (Sample { start: time, end: time2 }),
                    )
                },
            },
    {
        // Test whether the timer works.
        if time == 0 || time2 == 0 {
            return Err(TimerError::NoTimer);
        }
        let delta: i32 = delta(time, time2);

        // Test whether the timer is fine grained enough to provide a delta even
        // when called shortly after each other -- this implies that we also have
        // a high resolution timer.
        if delta == 0 {
            return Err(TimerError::CoarseTimer);
        }
        let ghost s = self.samples@;
        let ghost t = s.push((Sample { start: time, end: time2 }));
        assert(t.drop_last() == s);
        self.samples = Ghost(t);
        self.taken = self.taken + 1;

        // Up to here no variable was modified that will be evaluated later, but
        // some work was already performed. Thus it already had an impact on the
        // caches, branch prediction, etc. with the goal to clear them to get the
        // worst case measurements.
        if self.taken <= CLEARCACHE {
            return Ok(());
        }
        if ec.stuck(delta) {
            self.count_stuck = self.count_stuck + 1;
        }
        // Test whether we have an increasing timer.

        if !(time2 > time) {
            self.time_backwards = self.time_backwards + 1;
        }
        // Count the number of times the counter increases in steps of 100ns or
        // greater.

        if delta % 100 == 0 {
            self.count_mod = self.count_mod + 1;
        }
        // Ensure that we have a varying delta timer which is necessary for the
        // calculation of entropy.

        self.delta_sum = self.delta_sum.wrapping_add(absolute_change(self.old_delta, delta));
        self.old_delta = delta;
        Ok(())
    }

    /// What the test says of the timer after all samples are taken.
    pub fn verdict(&self) -> (r: Result<u8, TimerError>)
        requires
            self.wf(),
            self.taken == SAMPLES,
        ensures
            r == verdict_spec(self.samples@),
            r matches Ok(rounds) ==> 2 <= rounds <= 128,
    {
        if self.time_backwards > BACKWARDS_LIMIT {
            return Err(TimerError::NotMonotonic);
        }
        // Test that the available amount of entropy per round does not get too
        // low. We expect 1 bit of entropy per round as a reasonable minimum
        // (although less is possible, it means the collector loop has to run
        // much more often).

        if self.delta_sum < TESTLOOPCOUNT {
            return Err(TimerError::TinyVariantions);
        }
        // Ensure that we have variations in the time stamp below 100 for at
        // least 10% of all checks -- on some platforms, the counter increments in
        // multiples of 100, but not always.

        if self.count_mod > MOST_SAMPLES {
            return Err(TimerError::CoarseTimer);
        }
        // If we have more than 90% stuck results, then this timer is likely to
        // not work well.

        if self.count_stuck > MOST_SAMPLES {
            return Err(TimerError::TooManyStuck);
        }
        match estimate_rounds(self.delta_sum / TESTLOOPCOUNT) {
            Some(rounds) => Ok(rounds),
            None => Err(TimerError::TinyVariantions),
        }
    }
}

} // verus!
