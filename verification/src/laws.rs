//! What holds of the generator as a whole.

use vstd::prelude::*;

use crate::error::TimerError;
use crate::model::{Collector, RngState, MIN_ACCESSES, STUCK_LIMIT};
use crate::timer_test::{Sample, TESTLOOPCOUNT};

verus! {

use crate::bits::{digits, lemma_fold_is_small};
use crate::jitter_law::law_generator_does_not_give_up;
use crate::lfsr_law::{law_lfsr_keeps_pool_entropy, law_turn_is_injective};
use crate::model::{
    accesses, entropy_spec, first_number_spec, high_half, low_half, measurements, next_u32_spec,
    next_u64_spec, run, samples_of, startup_spec, stuck_in_run, test_runs, test_spec, yields,
};
use crate::pool::lfsr_spec;
use crate::stir_law::law_stirring_is_injective;
use crate::timer_test::{lemma_bit_length, rounds_spec, variation};
use crate::timing::{delta_spec, widened};
use crate::verdict_law::law_useless_readings_end_the_test;
use vstd::arithmetic::logarithm::{lemma_log_is_ordered, log};

/// `next_u32` wastes no entropy: two successive calls hand out the lower and the
/// upper half of one 64-bit number, and the second call takes no reading and does
/// not fail.
pub proof fn law_next_u32_uses_both_halves(
    s0: RngState,
    s1: RngState,
    s2: RngState,
    first: u32,
    second: Result<u32, TimerError>,
)
    requires
        !s0.half_used,
        next_u32_spec(s0, s1, Ok(first)),
        next_u32_spec(s1, s2, second),
    ensures
        next_u64_spec(s0, s2, Ok(s2.data)),
        first == low_half(s2.data),
        second == Ok::<u32, TimerError>(high_half(s2.data)),
        s2.data == first + 0x1_0000_0000 * second.unwrap(),
        s2.readings == s1.readings,
{
}

/// With a variable number of rounds, the memory access noise source makes at
/// least as many accesses as without, and at most 15 more.
pub proof fn law_accesses_are_bounded(data: u64, reading: u64)
    ensures
        accesses(data, None) == MIN_ACCESSES,
        accesses(data, None) <= accesses(data, Some(reading)) <= accesses(data, None) + 15,
{
    lemma_fold_is_small(reading ^ data, 4, digits(4) as nat);
    assert(1u64 << 4 == 16) by (bit_vector);
}

/// Two collections that work on different pools, but see the same readings.
proof fn lemma_runs_stay_apart(c1: Collector, c2: Collector, log: Seq<u64>, at: int, m: nat)
    requires
        c1.prev_time == c2.prev_time,
        c1.last_delta == c2.last_delta,
        c1.last_delta2 == c2.last_delta2,
    ensures
        ({
            let r1 = run(c1, log, at, m);
            let r2 = run(c2, log, at, m);
            &&& r1.prev_time == r2.prev_time
            &&& r1.last_delta == r2.last_delta
            &&& r1.last_delta2 == r2.last_delta2
            &&& r1.pool.data == r2.pool.data ==> c1.pool.data == c2.pool.data
        }),
    decreases m,
{
    if m > 0 {
        let k = (m - 1) as nat;
        lemma_runs_stay_apart(c1, c2, log, at, k);
        let r1 = run(c1, log, at, k);
        let r2 = run(c2, log, at, k);
        let delta = delta_spec(r1.prev_time, log[at + 3 * k + 1]);
        let d1 = lfsr_spec(r1.pool.data, widened(delta));
        let d2 = lfsr_spec(r2.pool.data, widened(delta));
        law_lfsr_keeps_pool_entropy(r1.pool.data, r2.pool.data, widened(delta));
        law_turn_is_injective(d1, d2);
    }
}

/// Collecting entropy destroys none that is in the pool: of two generators that
/// take the same readings, but start with different pools, each comes to a number
/// of its own.
pub proof fn law_collection_keeps_pool_entropy(
    pre1: RngState,
    pre2: RngState,
    post1: RngState,
    post2: RngState,
    attempts: u64,
    number1: u64,
    number2: u64,
)
    requires
        pre1.readings == pre2.readings,
        post1.readings == post2.readings,
        entropy_spec(pre1, post1, attempts, Ok(number1)),
        entropy_spec(pre2, post2, attempts, Ok(number2)),
    ensures
        number1 == number2 ==> pre1.data == pre2.data,
{
    let log = post1.readings;
    let at = pre1.readings.len() as int + 1;
    let m = measurements(log, at);
    let c1 = Collector { pool: pre1.pool(), prev_time: log[at - 1], last_delta: 0, last_delta2: 0 };
    let c2 = Collector { pool: pre2.pool(), prev_time: log[at - 1], last_delta: 0, last_delta2: 0 };
    lemma_runs_stay_apart(c1, c2, log, at, m);
    law_stirring_is_injective(run(c1, log, at, m).pool.data, run(c2, log, at, m).pool.data);
}

/// The number of measurements that yield entropy is less than that of all.
proof fn lemma_yields_less(c: Collector, log: Seq<u64>, at: int, m: nat)
    requires
        m > 0,
    ensures
        yields(c, log, at, m) < m,
    decreases m,
{
    if m > 1 {
        lemma_yields_less(c, log, at, (m - 1) as nat);
    }
}

/// Every number takes its rounds: it is generated from more measurements than
/// there are rounds, each of which takes three readings.
pub proof fn law_number_takes_its_rounds(
    pre: RngState,
    post: RngState,
    attempts: u64,
    number: u64,
)
    requires
        entropy_spec(pre, post, attempts, Ok(number)),
    ensures
        post.readings.len() - pre.readings.len() >= 1 + 3 * (pre.rounds + 1),
{
    let log = post.readings;
    let at = pre.readings.len() as int + 1;
    let c = Collector { pool: pre.pool(), prev_time: log[at - 1], last_delta: 0, last_delta2: 0 };
    lemma_yields_less(c, log, at, measurements(log, at));
}

/// All readings from `from` on are the same.
pub open spec fn is_frozen(log: Seq<u64>, from: int, time: u64) -> bool {
    forall|i: int| from <= i < log.len() ==> #[trigger] log[i] == time
}

/// A timer that stands still is refused by the test: as none at all if it stands
/// at 0, and as too coarse otherwise.
pub proof fn law_frozen_timer_is_refused(
    pre: RngState,
    post: RngState,
    r: Result<u8, TimerError>,
    time: u64,
)
    requires
        test_spec(pre, post, r),
        is_frozen(post.readings, pre.readings.len() as int, time),
    ensures
        r == Err::<u8, TimerError>(
            if time == 0 {
                TimerError::NoTimer
            } else {
                TimerError::CoarseTimer
            },
        ),
{
    let log = post.readings;
    let at = pre.readings.len() as int + 1;
    let n = test_runs(pre, post);
    let s = samples_of(log, at, n);
    assert(log[at] == time && log[at + 3] == time);
    assert(s[0] == Sample { start: time, end: time });
    assert(s[0].fault() is Some);
    assert(s.last() == s[0]);
}

/// The test that a start-up with an empty cache has run, and its result.
spec fn started(
    pre: RngState,
    post: RngState,
    cached: u8,
    r: Result<(), TimerError>,
) -> (RngState, Result<u8, TimerError>) {
    choose|tested: RngState, outcome: Result<u8, TimerError>| #[trigger]
        test_spec(pre, tested, outcome) && match outcome {
            Ok(rounds) => {
                &&& cached == rounds
                &&& first_number_spec(RngState { rounds, ..tested }, post, r)
            },
            Err(error) => {
                &&& cached == 0
                &&& post == tested
                &&& r == Err::<(), TimerError>(error)
            },
        }
}

/// A generator that was started up with an empty cache has a timer that passed the
/// test with the first readings of the start-up. The generator uses the number of
/// rounds that the test gave, which is then cached.
pub proof fn law_started_generator_passed_the_test(pre: RngState, post: RngState, cached: u8)
    requires
        startup_spec(pre, 0, post, cached, Ok(())),
    ensures
        exists|tested: RngState| #[trigger]
            test_spec(pre, tested, Ok(post.rounds)) && tested.readings.is_prefix_of(post.readings),
        cached == post.rounds,
        post.rounds > 0,
{
    let (tested, outcome) = started(pre, post, cached, Ok(()));
    let rounds = outcome->Ok_0;
    assert(post.rounds == rounds);
    assert(test_spec(pre, tested, Ok(post.rounds)));
    assert(tested.readings =~= post.readings.subrange(0, tested.readings.len() as int));
    let s = samples_of(
        tested.readings,
        pre.readings.len() as int + 1,
        test_runs(pre, tested),
    );
    let average = (variation(s) / TESTLOOPCOUNT) as u64;
    law_more_variation_takes_fewer_rounds(average, average);
}

/// A timer test is decided by the readings alone: two tests from the same state that
/// see the same readings end at the same one, in the same state, with the same
/// result.
pub proof fn law_readings_decide_the_test(
    pre: RngState,
    log: Seq<u64>,
    tested1: RngState,
    outcome1: Result<u8, TimerError>,
    tested2: RngState,
    outcome2: Result<u8, TimerError>,
)
    requires
        test_spec(pre, tested1, outcome1),
        test_spec(pre, tested2, outcome2),
        tested1.readings.is_prefix_of(log),
        tested2.readings.is_prefix_of(log),
    ensures
        tested1 == tested2,
        outcome1 == outcome2,
{
    let at = pre.readings.len() as int + 1;
    let n1 = test_runs(pre, tested1);
    let n2 = test_runs(pre, tested2);
    let s1 = samples_of(tested1.readings, at, n1);
    let s2 = samples_of(tested2.readings, at, n2);
    // A test goes on after a sample without a fault, and ends with one that has one.
    if n1 < n2 {
        assert(s1.last() == s2[n1 - 1]);
    }
    if n2 < n1 {
        assert(s2.last() == s1[n2 - 1]);
    }
    assert(tested1.readings =~= tested2.readings);
}

/// After a start-up with an empty cache, the cache holds a result only if the very
/// readings of this start-up passed the test with it, and the generator uses this
/// result.
pub proof fn law_only_a_passed_test_is_cached(
    pre: RngState,
    post: RngState,
    cached: u8,
    r: Result<(), TimerError>,
)
    requires
        startup_spec(pre, 0, post, cached, r),
    ensures
        cached != 0 ==> post.rounds == cached && exists|tested: RngState| #[trigger]
            test_spec(pre, tested, Ok(cached)) && tested.readings.is_prefix_of(post.readings),
{
    let (tested, outcome) = started(pre, post, cached, r);
    if cached != 0 {
        assert(test_spec(pre, tested, Ok(cached)));
        assert(tested.readings =~= post.readings.subrange(0, tested.readings.len() as int));
    }
}

/// The test decides how a start-up with an empty cache ends. If it refuses the
/// timer, the start-up fails with the error of the test, takes no further reading
/// and leaves the cache empty. If it passes, its result is cached and used, and the
/// start-up fails only if the timer gets stuck while the pool is filled.
pub proof fn law_test_decides_the_start_up(
    pre: RngState,
    tested: RngState,
    outcome: Result<u8, TimerError>,
    post: RngState,
    cached: u8,
    r: Result<(), TimerError>,
)
    requires
        startup_spec(pre, 0, post, cached, r),
        test_spec(pre, tested, outcome),
        tested.readings.is_prefix_of(post.readings),
    ensures
        match outcome {
            Ok(rounds) => {
                &&& cached == rounds
                &&& post.rounds == rounds
                &&& post.half_used == pre.half_used
                &&& first_number_spec(RngState { rounds, ..tested }, post, r)
                &&& r is Ok ==> entropy_spec(
                    RngState { rounds, ..tested },
                    post,
                    STUCK_LIMIT,
                    Ok(post.data),
                )
                &&& r matches Err(error) ==> error == TimerError::TooManyStuck && entropy_spec(
                    RngState { rounds, ..tested },
                    post,
                    STUCK_LIMIT,
                    Err(error),
                )
            },
            Err(error) => {
                &&& cached == 0
                &&& post == tested
                &&& r == Err::<(), TimerError>(error)
            },
        },
{
    let (own, result) = started(pre, post, cached, r);
    assert(own.readings =~= post.readings.subrange(0, own.readings.len() as int));
    law_readings_decide_the_test(pre, post.readings, own, result, tested, outcome);
}

/// A cached test result makes the next start-up faster: it is used as it is, and no
/// reading is spent on a test. Every start-up from then on leaves the cache alone,
/// and fails only if the timer gets stuck while the pool is filled.
pub proof fn law_cached_result_is_used(
    pre: RngState,
    cached: u8,
    post: RngState,
    cached_after: u8,
    r: Result<(), TimerError>,
)
    requires
        cached > 0,
        startup_spec(pre, cached, post, cached_after, r),
    ensures
        cached_after == cached,
        post.rounds == cached,
        post.half_used == pre.half_used,
        first_number_spec((RngState { rounds: cached, ..pre }), post, r),
        r is Ok ==> entropy_spec(
            (RngState { rounds: cached, ..pre }),
            post,
            STUCK_LIMIT,
            Ok(post.data),
        ),
        r matches Err(error) ==> error == TimerError::TooManyStuck && entropy_spec(
            (RngState { rounds: cached, ..pre }),
            post,
            STUCK_LIMIT,
            Err(error),
        ),
{
}

/// A start-up with a timer that works is not answered that there is none: that error
/// comes only if one of the readings of this start-up is 0.
pub proof fn law_missing_timer_reads_zero(
    pre: RngState,
    cached: u8,
    post: RngState,
    cached_after: u8,
)
    requires
        startup_spec(pre, cached, post, cached_after, Err(TimerError::NoTimer)),
    ensures
        cached == 0,
        cached_after == 0,
        exists|i: int|
            pre.readings.len() < i < post.readings.len() && #[trigger] post.readings[i] == 0,
{
    let r = Err(TimerError::NoTimer);
    if cached > 0 {
        law_cached_result_is_used(pre, cached, post, cached_after, r);
    } else {
        let (tested, outcome) = started(pre, post, cached_after, r);
        assert(post == tested);
        law_useless_readings_end_the_test(pre, post, outcome);
    }
}

/// A start-up with a good timer succeeds. If its readings pass the test, or a result is
/// cached, and the timer then does not get stuck for longer than anyone can wait, a
/// first number is generated with as many rounds, and the result is in the cache.
pub proof fn law_good_timer_starts_up(
    pre: RngState,
    cached: u8,
    tested: RngState,
    rounds: u8,
    post: RngState,
    cached_after: u8,
    r: Result<(), TimerError>,
)
    requires
        startup_spec(pre, cached, post, cached_after, r),
        if cached > 0 {
            tested == pre && rounds == cached
        } else {
            test_spec(pre, tested, Ok(rounds)) && tested.readings.is_prefix_of(post.readings)
        },
        post.readings.len() - tested.readings.len() <= 3 * 0xffff_ffff_ffff_ffff,
    ensures
        r is Ok,
        cached_after == rounds,
        entropy_spec((RngState { rounds, ..tested }), post, STUCK_LIMIT, Ok(post.data)),
{
    if cached > 0 {
        law_cached_result_is_used(pre, cached, post, cached_after, r);
    } else {
        law_test_decides_the_start_up(pre, tested, Ok(rounds), post, cached_after, r);
    }
    if r is Err {
        law_generator_does_not_give_up((RngState { rounds, ..tested }), post, r->Err_0);
    }
}

/// In a collection with a timer that stands still, no time passes.
proof fn lemma_frozen_run(c: Collector, log: Seq<u64>, at: int, m: nat, time: u64)
    requires
        c.prev_time == time,
        at + 3 * m <= log.len(),
        is_frozen(log, at, time),
        at >= 0,
    ensures
        run(c, log, at, m).prev_time == time,
        yields(c, log, at, m) == 0,
    decreases m,
{
    if m > 0 {
        let k = (m - 1) as nat;
        lemma_frozen_run(c, log, at, k, time);
        assert(log[at + 3 * k + 1] == time);
        assert(stuck_in_run(c, log, at, m - 1));
    }
}

/// A timer that stands still yields no number: the collection gives up.
pub proof fn law_frozen_timer_yields_nothing(
    pre: RngState,
    post: RngState,
    attempts: u64,
    r: Result<u64, TimerError>,
    time: u64,
)
    requires
        pre.rounds > 0,
        entropy_spec(pre, post, attempts, r),
        is_frozen(post.readings, pre.readings.len() as int, time),
    ensures
        r == Err::<u64, TimerError>(TimerError::TooManyStuck),
{
    let log = post.readings;
    let at = pre.readings.len() as int + 1;
    let m = measurements(log, at);
    let c = Collector { pool: pre.pool(), prev_time: log[at - 1], last_delta: 0, last_delta2: 0 };
    lemma_frozen_run(c, log, at, m, time);
}

/// The more the deltas vary, the fewer rounds it takes.
pub proof fn law_more_variation_takes_fewer_rounds(less: u64, more: u64)
    requires
        2 <= less <= more,
    ensures
        rounds_spec(more) is Some,
        rounds_spec(less) is Some,
        2 <= rounds_spec(more)->0 <= rounds_spec(less)->0 <= 128,
{
    lemma_bit_length(more);
    lemma_bit_length(less);
    let b = log(2, more as int) + 1;
    let a = log(2, less as int) + 1;
    assert(log(2, 16) == 4) by {
        reveal_with_fuel(log, 6);
    }
    if more >= 16 {
        lemma_log_is_ordered(2, 16, more as int);
        vstd::std_specs::bits::axiom_u64_leading_zeros(more);
        assert(2 <= (128 + b - 1) / b <= 26) by (nonlinear_arith)
            requires
                5 <= b <= 64,
        ;
    }
    if less >= 16 {
        lemma_log_is_ordered(2, 16, less as int);
        lemma_log_is_ordered(2, less as int, more as int);
        assert((128 + b - 1) / b <= (128 + a - 1) / a <= 26) by (nonlinear_arith)
            requires
                5 <= a <= b <= 64,
        ;
    }
}

} // verus!
