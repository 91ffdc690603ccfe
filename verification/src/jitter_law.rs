//! How the jitter of the timer gets into a number, and how much of it.

use vstd::prelude::*;

use crate::error::TimerError;
use crate::model::{Collector, Pool, RngState, STUCK_LIMIT};

verus! {

use crate::bits::{bit, law_rotation_moves_bits, rotl};
use crate::ec::law_stuck_delta_is_predictable;
use crate::lfsr_law::{
    law_lfsr_keeps_pool_entropy, law_lfsr_takes_in_all_of_time, law_turn_is_injective,
};
use crate::memory::law_walk_goes_by_steps;
use crate::model::{
    accesses, entropy_spec, goes_on, measurements, noise_run, round_spec, run, run_accesses,
    stuck_in_run, stuck_row, test_runs, test_spec, yields,
};
use crate::pool::{lfsr_spec, stirred};
use crate::stir_law::law_stirring_is_injective;
use crate::timing::{
    delta_spec, difference32, law_delta_is_congruent, law_widened_holds_the_delta, widened,
};

/// The time after `k` measurements of a collection whose readings start at `at`, by
/// the reading before them and then the second of the three that each takes.
pub open spec fn time_after(log: Seq<u64>, at: int, k: int) -> u64 {
    if k <= 0 {
        log[at - 1]
    } else {
        log[at + 3 * (k - 1) + 1]
    }
}

/// The time that measurement `j` took, counted from 0; before the first, it is 0.
pub open spec fn time_delta(log: Seq<u64>, at: int, j: int) -> i32 {
    if j < 0 {
        0
    } else {
        delta_spec(time_after(log, at, j), time_after(log, at, j + 1))
    }
}

/// The time of measurement `j` could be told from the measurements before: it is zero,
/// or the same as before, or it has changed by as much as before, modulo 2^32.
pub open spec fn is_predictable(log: Seq<u64>, at: int, j: int) -> bool {
    let before = time_delta(log, at, j - 2);
    let last = time_delta(log, at, j - 1);
    let current = time_delta(log, at, j);
    ||| current == 0
    ||| current == last
    ||| ((current - last) - (last - before)) % 0x1_0000_0000 == 0
}

/// The measurements, among the first `m`, that yield entropy: those that are not
/// predictable, leaving aside the first.
pub open spec fn yielding(log: Seq<u64>, at: int, m: int) -> Set<int> {
    Set::new(|j: int| 1 <= j < m && !is_predictable(log, at, j))
}

/// A collection at its start.
pub open spec fn fresh(pre: RngState, log: Seq<u64>) -> Collector {
    Collector {
        pool: pre.pool(),
        prev_time: log[pre.readings.len() as int],
        last_delta: 0,
        last_delta2: 0,
    }
}

/// The time values that a run keeps are those of its readings.
proof fn lemma_run_keeps_times(c: Collector, log: Seq<u64>, at: int, k: nat)
    requires
        c.prev_time == log[at - 1],
        c.last_delta == 0,
        c.last_delta2 == 0,
    ensures
        run(c, log, at, k).prev_time == time_after(log, at, k as int),
        run(c, log, at, k).last_delta == time_delta(log, at, k - 1),
        run(c, log, at, k).last_delta2 == difference32(
            time_delta(log, at, k - 2),
            time_delta(log, at, k - 1),
        ),
    decreases k,
{
    if k > 0 {
        lemma_run_keeps_times(c, log, at, (k - 1) as nat);
    }
}

/// A measurement of a collection is stuck just if it is predictable.
pub proof fn law_stuck_is_predictable(pre: RngState, log: Seq<u64>, j: int)
    requires
        j >= 0,
    ensures
        ({
            let at = pre.readings.len() as int + 1;
            stuck_in_run(fresh(pre, log), log, at, j) == is_predictable(log, at, j)
        }),
{
    let at = pre.readings.len() as int + 1;
    lemma_run_keeps_times(fresh(pre, log), log, at, j as nat);
    law_stuck_delta_is_predictable(
        time_delta(log, at, j - 2),
        time_delta(log, at, j - 1),
        time_delta(log, at, j),
    );
}

proof fn lemma_yielding(pre: RngState, log: Seq<u64>, m: nat)
    ensures
        ({
            let at = pre.readings.len() as int + 1;
            &&& yielding(log, at, m as int).finite()
            &&& yielding(log, at, m as int).len() == yields(fresh(pre, log), log, at, m)
        }),
    decreases m,
{
    let at = pre.readings.len() as int + 1;
    let found = yielding(log, at, m as int);
    if m <= 1 {
        assert(found =~= Set::<int>::empty());
    } else {
        let k = (m - 1) as nat;
        let before = yielding(log, at, k as int);
        lemma_yielding(pre, log, k);
        law_stuck_is_predictable(pre, log, k as int);
        assert(found =~= if is_predictable(log, at, k as int) {
            before
        } else {
            before.insert(k as int)
        });
    }
}

/// A number is made of its rounds, and of nothing else. It takes one reading, and
/// three more for each of its measurements. Leaving the first of them aside, just as
/// many as there are rounds are not predictable, and the last is one of those.
pub proof fn law_number_is_made_of_its_rounds(
    pre: RngState,
    post: RngState,
    attempts: u64,
    number: u64,
)
    requires
        pre.rounds > 0,
        entropy_spec(pre, post, attempts, Ok(number)),
    ensures
        ({
            let log = post.readings;
            let at = pre.readings.len() as int + 1;
            let m = (log.len() - at) / 3;
            &&& log.len() == at + 3 * m
            &&& pre.readings.is_prefix_of(log)
            &&& yielding(log, at, m).len() == pre.rounds
            &&& m >= 2 && !is_predictable(log, at, m - 1)
        }),
{
    let log = post.readings;
    let at = pre.readings.len() as int + 1;
    let m = measurements(log, at);
    let c = fresh(pre, log);
    lemma_yielding(pre, log, m);
    law_stuck_is_predictable(pre, log, m - 1);
    assert(pre.readings =~= log.subrange(0, pre.readings.len() as int));
    assert(goes_on(c, log, at, (m - 1) as nat, pre.rounds, attempts));
}

proof fn lemma_row_is_stuck(c: Collector, log: Seq<u64>, at: int, m: nat, j: int)
    requires
        m - stuck_row(c, log, at, m) <= j < m,
    ensures
        stuck_in_run(c, log, at, j),
        j >= 1,
    decreases m,
{
    if m > 1 && stuck_in_run(c, log, at, m - 1) && j < m - 1 {
        lemma_row_is_stuck(c, log, at, (m - 1) as nat, j);
    }
}

/// A collection gives up only on a timer that is stuck: the last `attempts` of its
/// measurements are predictable, and fewer than there are rounds were not.
pub proof fn law_collection_gives_up_only_when_stuck(
    pre: RngState,
    post: RngState,
    attempts: u64,
    error: TimerError,
)
    requires
        attempts > 0,
        entropy_spec(pre, post, attempts, Err(error)),
    ensures
        error == TimerError::TooManyStuck,
        ({
            let log = post.readings;
            let at = pre.readings.len() as int + 1;
            let m = (log.len() - at) / 3;
            &&& log.len() == at + 3 * m
            &&& m > attempts
            &&& forall|j: int| m - attempts <= j < m ==> #[trigger] is_predictable(log, at, j)
            &&& yielding(log, at, m).len() < pre.rounds
        }),
{
    let log = post.readings;
    let at = pre.readings.len() as int + 1;
    let m = measurements(log, at);
    let c = fresh(pre, log);
    lemma_yielding(pre, log, m);
    lemma_row_is_stuck(c, log, at, m, m - attempts);
    assert forall|j: int| m - attempts <= j < m implies #[trigger] is_predictable(log, at, j) by {
        lemma_row_is_stuck(c, log, at, m, j);
        law_stuck_is_predictable(pre, log, j);
    }
}

proof fn lemma_stuck_row_counts(c: Collector, log: Seq<u64>, at: int, k: nat, n: nat)
    requires
        k >= 1,
        forall|j: int| k <= j < k + n ==> #[trigger] stuck_in_run(c, log, at, j),
    ensures
        stuck_row(c, log, at, k + n) >= n,
    decreases n,
{
    if n > 0 {
        lemma_stuck_row_counts(c, log, at, k, (n - 1) as nat);
        assert(stuck_in_run(c, log, at, k + n - 1));
    }
}

/// A collection goes on no longer than it must: before its last measurement, there are
/// no `attempts` predictable ones in a row, and fewer that yield entropy than there are
/// rounds.
pub proof fn law_collection_ends_in_time(
    pre: RngState,
    post: RngState,
    attempts: u64,
    r: Result<u64, TimerError>,
    k: nat,
)
    requires
        entropy_spec(pre, post, attempts, r),
        k >= 1,
        k + attempts < (post.readings.len() - pre.readings.len() - 1) / 3,
    ensures
        ({
            let log = post.readings;
            let at = pre.readings.len() as int + 1;
            &&& exists|j: int| k <= j < k + attempts && !#[trigger] is_predictable(log, at, j)
            &&& yielding(log, at, k as int).len() < pre.rounds
        }),
{
    let log = post.readings;
    let at = pre.readings.len() as int + 1;
    let c = fresh(pre, log);
    let end = (k + attempts) as nat;
    lemma_yielding(pre, log, k);
    assert(goes_on(c, log, at, k, pre.rounds, attempts));
    assert(goes_on(c, log, at, end, pre.rounds, attempts));
    if forall|j: int| k <= j < k + attempts ==> #[trigger] is_predictable(log, at, j) {
        assert forall|j: int| k <= j < k + attempts implies #[trigger] stuck_in_run(
            c,
            log,
            at,
            j,
        ) by {
            law_stuck_is_predictable(pre, log, j);
            assert(is_predictable(log, at, j));
        }
        lemma_stuck_row_counts(c, log, at, k, attempts as nat);
    }
}

/// The generator does not give up in a lifetime: a number that cannot be generated has
/// taken more readings than three times the largest 64-bit number.
pub proof fn law_generator_does_not_give_up(pre: RngState, post: RngState, error: TimerError)
    requires
        entropy_spec(pre, post, STUCK_LIMIT, Err(error)),
    ensures
        post.readings.len() - pre.readings.len() > 3 * 0xffff_ffff_ffff_ffff,
{
    law_collection_gives_up_only_when_stuck(pre, post, STUCK_LIMIT, error);
}

/// One more measurement of a run. It carries the time delta, congruent modulo 2^64,
/// through the shift register into the pool, which is then turned by seven bits,
/// unless the measurement is stuck; and the walk over the memory goes on.
pub proof fn law_measurement_takes_in_its_delta(
    c: Collector,
    log: Seq<u64>,
    at: int,
    k: nat,
    word: u64,
    i: u64,
)
    requires
        i < 64,
        (word - delta_spec(run(c, log, at, k).prev_time, log[at + 3 * k + 1]))
            % 0x1_0000_0000_0000_0000 == 0,
    ensures
        ({
            let before = run(c, log, at, k);
            let after = run(c, log, at, k + 1);
            let turn = if stuck_in_run(c, log, at, k as int) {
                0int
            } else {
                7
            };
            let count = accesses(before.pool.data, Some(log[at + 3 * k]));
            &&& bit(after.pool.data, ((i + turn) % 64) as u64) == bit(
                lfsr_spec(before.pool.data, word),
                i,
            )
            &&& after.prev_time == log[at + 3 * k + 1]
            &&& after.last_delta == delta_spec(before.prev_time, after.prev_time)
            &&& (after.last_delta2 - (before.last_delta - after.last_delta)) % 0x1_0000_0000 == 0
            &&& 0 <= after.pool.mem_index < 2048
            &&& (after.pool.mem_index - before.pool.mem_index - 31 * count) % 2048 == 0
        }),
{
    let before = run(c, log, at, k);
    let delta = delta_spec(before.prev_time, log[at + 3 * k + 1]);
    law_widened_holds_the_delta(delta, delta);
    assert(word == widened(delta));
    law_rotation_moves_bits(lfsr_spec(before.pool.data, word), 7, i);
    law_walk_goes_by_steps(
        before.pool.mem_index,
        accesses(before.pool.data, Some(log[at + 3 * k])),
    );
    assert(run(c, log, at, 0) == c);
}

/// The number that a collection comes to is the pool after all its measurements,
/// stirred; it is what the pool then holds. A collection that gives up leaves the pool
/// as it is. Nothing else changes but for the place in the memory.
pub proof fn law_number_is_the_stirred_pool(
    pre: RngState,
    post: RngState,
    attempts: u64,
    r: Result<u64, TimerError>,
)
    requires
        entropy_spec(pre, post, attempts, r),
    ensures
        ({
            let log = post.readings;
            let at = pre.readings.len() as int + 1;
            let pool = run(fresh(pre, log), log, at, ((log.len() - at) / 3) as nat).pool;
            &&& r matches Ok(number) ==> number == stirred(pool.data) && post.data == number
            &&& r is Err ==> post.data == pool.data
            &&& post.mem_index == pool.mem_index
            &&& post.rounds == pre.rounds
            &&& post.half_used == pre.half_used
        }),
{
}

/// The time deltas of two collections at measurement `i` are the same, modulo 2^32.
pub open spec fn same_delta(log1: Seq<u64>, at1: int, log2: Seq<u64>, at2: int, i: int) -> bool {
    let passed1 = time_after(log1, at1, i + 1) - time_after(log1, at1, i);
    let passed2 = time_after(log2, at2, i + 1) - time_after(log2, at2, i);
    (passed1 - passed2) % 0x1_0000_0000 == 0
}

proof fn lemma_same_delta(log1: Seq<u64>, at1: int, log2: Seq<u64>, at2: int, i: int)
    requires
        i >= 0,
    ensures
        same_delta(log1, at1, log2, at2, i) <==> time_delta(log1, at1, i) == time_delta(
            log2,
            at2,
            i,
        ),
{
    law_delta_is_congruent(time_after(log1, at1, i), time_after(log1, at1, i + 1));
    law_delta_is_congruent(time_after(log2, at2, i), time_after(log2, at2, i + 1));
}

/// The pool of a run after one more measurement.
proof fn lemma_next_pool(pre: RngState, log: Seq<u64>, k: nat)
    ensures
        ({
            let at = pre.readings.len() as int + 1;
            let c = fresh(pre, log);
            let data = lfsr_spec(
                run(c, log, at, k).pool.data,
                widened(time_delta(log, at, k as int)),
            );
            run(c, log, at, k + 1).pool.data == if is_predictable(log, at, k as int) {
                data
            } else {
                rotl(data, 7)
            }
        }),
{
    let at = pre.readings.len() as int + 1;
    lemma_run_keeps_times(fresh(pre, log), log, at, k);
    law_stuck_is_predictable(pre, log, k as int);
}

/// Two runs that differ in one time delta only, or in their pools only, stay apart.
proof fn lemma_jitter_stays(
    pre1: RngState,
    log1: Seq<u64>,
    pre2: RngState,
    log2: Seq<u64>,
    m: nat,
    j: int,
)
    requires
        pre1.data == pre2.data,
        ({
            let at1 = pre1.readings.len() as int + 1;
            let at2 = pre2.readings.len() as int + 1;
            &&& forall|i: int|
                0 <= i < m ==> #[trigger] is_predictable(log1, at1, i) == is_predictable(
                    log2,
                    at2,
                    i,
                )
            &&& forall|i: int|
                0 <= i < m && i != j ==> #[trigger] same_delta(log1, at1, log2, at2, i)
            &&& !same_delta(log1, at1, log2, at2, j)
        }),
        j >= 0,
    ensures
        ({
            let at1 = pre1.readings.len() as int + 1;
            let at2 = pre2.readings.len() as int + 1;
            let same = run(fresh(pre1, log1), log1, at1, m).pool.data == run(
                fresh(pre2, log2),
                log2,
                at2,
                m,
            ).pool.data;
            if m <= j {
                same
            } else {
                !same
            }
        }),
    decreases m,
{
    let at1 = pre1.readings.len() as int + 1;
    let at2 = pre2.readings.len() as int + 1;
    if m > 0 {
        let k = (m - 1) as nat;
        lemma_jitter_stays(pre1, log1, pre2, log2, k, j);
        lemma_next_pool(pre1, log1, k);
        lemma_next_pool(pre2, log2, k);
        lemma_same_delta(log1, at1, log2, at2, k as int);
        assert(is_predictable(log1, at1, k as int) == is_predictable(log2, at2, k as int));
        assert(k != j ==> same_delta(log1, at1, log2, at2, k as int));
        let x = run(fresh(pre1, log1), log1, at1, k).pool.data;
        let y = run(fresh(pre2, log2), log2, at2, k).pool.data;
        let d1 = time_delta(log1, at1, k as int);
        let d2 = time_delta(log2, at2, k as int);
        law_widened_holds_the_delta(d1, d2);
        law_lfsr_takes_in_all_of_time(x, widened(d1), widened(d2));
        law_lfsr_keeps_pool_entropy(x, y, widened(d1));
        law_turn_is_injective(lfsr_spec(x, widened(d1)), lfsr_spec(y, widened(d2)));
    }
}

/// The jitter of every measurement reaches the number: two collections that start from
/// the same pool, and whose measurements take the same times and are predictable
/// alike, but for one measurement that takes another time, come to different numbers.
pub proof fn law_jitter_reaches_the_number(
    pre1: RngState,
    post1: RngState,
    attempts1: u64,
    number1: u64,
    pre2: RngState,
    post2: RngState,
    attempts2: u64,
    number2: u64,
    j: int,
)
    requires
        entropy_spec(pre1, post1, attempts1, Ok(number1)),
        entropy_spec(pre2, post2, attempts2, Ok(number2)),
        pre1.data == pre2.data,
        post1.readings.len() - pre1.readings.len() == post2.readings.len() - pre2.readings.len(),
        ({
            let (log1, at1) = (post1.readings, pre1.readings.len() as int + 1);
            let (log2, at2) = (post2.readings, pre2.readings.len() as int + 1);
            let m = (log1.len() - at1) / 3;
            &&& 0 <= j < m
            &&& forall|i: int|
                0 <= i < m ==> #[trigger] is_predictable(log1, at1, i) == is_predictable(
                    log2,
                    at2,
                    i,
                )
            &&& forall|i: int|
                0 <= i < m && i != j ==> #[trigger] same_delta(log1, at1, log2, at2, i)
            &&& !same_delta(log1, at1, log2, at2, j)
        }),
    ensures
        number1 != number2,
{
    let (log1, at1) = (post1.readings, pre1.readings.len() as int + 1);
    let (log2, at2) = (post2.readings, pre2.readings.len() as int + 1);
    let m = measurements(log1, at1);
    lemma_jitter_stays(pre1, log1, pre2, log2, m, j);
    law_stirring_is_injective(
        run(fresh(pre1, log1), log1, at1, m).pool.data,
        run(fresh(pre2, log2), log2, at2, m).pool.data,
    );
}

/// A round ends with the first measurement that is not stuck, or when the attempts are
/// used up and all of them were.
pub proof fn law_round_ends_with_a_yield(
    c: Collector,
    before: Seq<u64>,
    done: Collector,
    after: Seq<u64>,
    attempts: u64,
    r: bool,
)
    requires
        round_spec(c, before, done, after, attempts, r),
    ensures
        ({
            let at = before.len() as int;
            let m = (after.len() - at) / 3;
            &&& after.len() == at + 3 * m
            &&& before.is_prefix_of(after)
            &&& done == run(c, after, at, m as nat)
            &&& 1 <= m <= attempts
            &&& forall|j: int| 0 <= j < m - 1 ==> #[trigger] stuck_in_run(c, after, at, j)
            &&& if r {
                !stuck_in_run(c, after, at, m - 1)
            } else {
                m == attempts && stuck_in_run(c, after, at, m - 1)
            }
        }),
{
    assert(before =~= after.subrange(0, before.len() as int));
}

/// One more run of the noise sources in a timer test: the time before it goes into the
/// pool, and the walk over the memory goes on.
pub proof fn law_test_run_takes_in_its_time(pool: Pool, log: Seq<u64>, at: int, k: nat)
    ensures
        ({
            let before = noise_run(pool, log, at, k);
            let after = noise_run(pool, log, at, k + 1);
            let count = accesses(before.data, Some(log[at + 4 * k + 1]));
            &&& noise_run(pool, log, at, 0) == pool
            &&& after.data == lfsr_spec(before.data, log[at + 4 * k])
            &&& 0 <= after.mem_index < 2048
            &&& (after.mem_index - before.mem_index - 31 * count) % 2048 == 0
        }),
{
    let before = noise_run(pool, log, at, k);
    law_walk_goes_by_steps(before.mem_index, accesses(before.data, Some(log[at + 4 * k + 1])));
}

proof fn lemma_test_times_stay(
    pool1: Pool,
    log1: Seq<u64>,
    at1: int,
    pool2: Pool,
    log2: Seq<u64>,
    at2: int,
    n: nat,
    j: int,
)
    requires
        pool1.data == pool2.data,
        forall|i: int|
            #![trigger log1[at1 + 4 * i]]
            0 <= i < n && i != j ==> log1[at1 + 4 * i] == log2[at2 + 4 * i],
        log1[at1 + 4 * j] != log2[at2 + 4 * j],
        j >= 0,
    ensures
        n <= j <==> noise_run(pool1, log1, at1, n).data == noise_run(pool2, log2, at2, n).data,
    decreases n,
{
    if n > 0 {
        let k = (n - 1) as nat;
        lemma_test_times_stay(pool1, log1, at1, pool2, log2, at2, k, j);
        let x = noise_run(pool1, log1, at1, k).data;
        let y = noise_run(pool2, log2, at2, k).data;
        let s = log1[at1 + 4 * k];
        let t = log2[at2 + 4 * k];
        law_lfsr_takes_in_all_of_time(x, s, t);
        law_lfsr_keeps_pool_entropy(x, y, s);
    }
}

/// The times of a timer test go into the pool: two tests that start from the same pool,
/// and in which the runs start at the same times, but for one, leave different pools.
/// A test changes nothing else but the place in the memory.
pub proof fn law_test_times_reach_the_pool(
    pre1: RngState,
    post1: RngState,
    r1: Result<u8, TimerError>,
    pre2: RngState,
    post2: RngState,
    r2: Result<u8, TimerError>,
    j: int,
)
    requires
        test_spec(pre1, post1, r1),
        test_spec(pre2, post2, r2),
        pre1.data == pre2.data,
        post1.readings.len() - pre1.readings.len() == post2.readings.len() - pre2.readings.len(),
        ({
            let (log1, at1) = (post1.readings, pre1.readings.len() as int + 1);
            let (log2, at2) = (post2.readings, pre2.readings.len() as int + 1);
            let n = (log1.len() - at1) / 4;
            &&& 0 <= j < n
            &&& forall|i: int|
                #![trigger log1[at1 + 4 * i]]
                0 <= i < n && i != j ==> log1[at1 + 4 * i] == log2[at2 + 4 * i]
            &&& log1[at1 + 4 * j] != log2[at2 + 4 * j]
        }),
    ensures
        post1.data != post2.data,
        post1.rounds == pre1.rounds,
        post1.half_used == pre1.half_used,
{
    let (log1, at1) = (post1.readings, pre1.readings.len() as int + 1);
    let (log2, at2) = (post2.readings, pre2.readings.len() as int + 1);
    let n = test_runs(pre1, post1);
    lemma_test_times_stay(pre1.pool(), log1, at1, pre2.pool(), log2, at2, n, j);
}

/// A timer test leaves the pool and the place in the memory as its runs of the noise
/// sources do, and changes nothing else.
pub proof fn law_test_changes_only_the_pool(
    pre: RngState,
    post: RngState,
    r: Result<u8, TimerError>,
)
    requires
        test_spec(pre, post, r),
    ensures
        ({
            let at = pre.readings.len() as int + 1;
            post.pool() == noise_run(
                pre.pool(),
                post.readings,
                at,
                ((post.readings.len() - at) / 4) as nat,
            )
        }),
        post.rounds == pre.rounds,
        post.half_used == pre.half_used,
{
}

/// The memory accesses of a run are those of its measurements together.
pub proof fn law_accesses_of_a_run_add_up(c: Collector, log: Seq<u64>, at: int, k: nat)
    ensures
        run_accesses(c, log, at, 0) == 0,
        run_accesses(c, log, at, k + 1) == run_accesses(c, log, at, k) + accesses(
            run(c, log, at, k).pool.data,
            Some(log[at + 3 * k]),
        ),
{
}

} // verus!
