//! What the timer test makes of the readings of a timer.

use vstd::prelude::*;

use crate::error::TimerError;
use crate::model::RngState;
use crate::timer_test::Sample;

verus! {

use crate::ec::law_stuck_delta_is_predictable;
use crate::model::{samples_of, test_runs, test_spec};
use crate::rounds_law::{law_rounds_are_just_enough, law_rounds_need_variation};
use crate::timer_test::{
    backwards_count, change, coarse_count, delta_at, rounds_spec, stuck_at, stuck_count, variation,
};
use crate::timing::{delta_spec, law_delta_is_congruent};
use vstd::arithmetic::power::pow;

/// The time that run `i` of a test took, by the first reading of the test's runs, at
/// `at`: each run takes four readings, the first of them before and the last after it.
pub open spec fn run_delta(log: Seq<u64>, at: int, i: int) -> int {
    delta_spec(log[at + 4 * i], log[at + 4 * i + 3]) as int
}

/// The same, where the run is evaluated; the 100 runs before only clear the caches,
/// and count as no time.
pub open spec fn evaluated(log: Seq<u64>, at: int, i: int) -> int {
    if i < 100 {
        0
    } else {
        run_delta(log, at, i)
    }
}

/// The runs, among the first `n`, that are evaluated and over which the timer did not
/// increase.
pub open spec fn backward_runs(log: Seq<u64>, at: int, n: int) -> Set<int> {
    Set::new(|i: int| 100 <= i < n && log[at + 4 * i + 3] <= log[at + 4 * i])
}

/// The runs, among the first `n`, that are evaluated and took a multiple of 100.
pub open spec fn coarse_runs(log: Seq<u64>, at: int, n: int) -> Set<int> {
    Set::new(|i: int| 100 <= i < n && run_delta(log, at, i) % 100 == 0)
}

/// The time of run `i` could be told from the runs before: it is zero, or the same as
/// before, or it has changed by as much as before, modulo 2^32.
pub open spec fn is_predictable(log: Seq<u64>, at: int, i: int) -> bool {
    let before = evaluated(log, at, i - 2);
    let last = evaluated(log, at, i - 1);
    let current = evaluated(log, at, i);
    ||| current == 0
    ||| current == last
    ||| ((current - last) - (last - before)) % 0x1_0000_0000 == 0
}

/// The runs, among the first `n`, that are evaluated and predictable.
pub open spec fn predictable_runs(log: Seq<u64>, at: int, n: int) -> Set<int> {
    Set::new(|i: int| 100 <= i < n && is_predictable(log, at, i))
}

/// By how much two times differ, in 32-bit arithmetic: the distance of the two on a
/// circle of 2^32. For two times that are opposite on it, the distance is too large
/// for a signed 32-bit number, and is taken for a negative one.
pub open spec fn distance(from: int, to: int) -> int {
    let d = if to < from {
        from - to
    } else {
        to - from
    };
    if d < 0x8000_0000 {
        d
    } else if d > 0x8000_0000 {
        0x1_0000_0000 - d
    } else {
        0x1_0000_0000_0000_0000 - 0x8000_0000
    }
}

/// The sum of the distances between successive times of the evaluated runs.
pub open spec fn total_distance(log: Seq<u64>, at: int, n: nat) -> int
    decreases n,
{
    if n <= 100 {
        0
    } else {
        total_distance(log, at, (n - 1) as nat) + distance(
            evaluated(log, at, n - 2),
            evaluated(log, at, n - 1),
        )
    }
}

/// The variation of two times is the amount of their difference; where that takes more
/// than 31 bits, it wraps around.
pub proof fn law_change_is_the_distance(from: i32, to: i32)
    ensures
        change(from, to) == distance(from as int, to as int),
        -0x8000_0000 < to - from < 0x8000_0000 ==> change(from, to) == if to < from {
            from - to
        } else {
            to - from
        },
{
}

/// The samples of the first runs are the first samples.
proof fn lemma_fewer_samples(log: Seq<u64>, at: int, n: nat)
    requires
        n > 0,
    ensures
        samples_of(log, at, n).drop_last() == samples_of(log, at, (n - 1) as nat),
        samples_of(log, at, n).last() == (Sample {
            start: log[at + 4 * (n - 1)],
            end: log[at + 4 * (n - 1) + 3],
        }),
{
    assert(samples_of(log, at, n).drop_last() =~= samples_of(log, at, (n - 1) as nat));
}

proof fn lemma_backward_runs(log: Seq<u64>, at: int, n: nat)
    ensures
        backward_runs(log, at, n as int).finite(),
        backward_runs(log, at, n as int).len() == backwards_count(samples_of(log, at, n)),
    decreases n,
{
    let runs = backward_runs(log, at, n as int);
    if n <= 100 {
        assert(runs =~= Set::<int>::empty());
    } else {
        let m = (n - 1) as nat;
        let before = backward_runs(log, at, m as int);
        lemma_backward_runs(log, at, m);
        lemma_fewer_samples(log, at, n);
        assert(runs =~= if log[at + 4 * m + 3] <= log[at + 4 * m] {
            before.insert(m as int)
        } else {
            before
        });
    }
}

proof fn lemma_coarse_runs(log: Seq<u64>, at: int, n: nat)
    ensures
        coarse_runs(log, at, n as int).finite(),
        coarse_runs(log, at, n as int).len() == coarse_count(samples_of(log, at, n)),
    decreases n,
{
    let runs = coarse_runs(log, at, n as int);
    if n <= 100 {
        assert(runs =~= Set::<int>::empty());
    } else {
        let m = (n - 1) as nat;
        let before = coarse_runs(log, at, m as int);
        lemma_coarse_runs(log, at, m);
        lemma_fewer_samples(log, at, n);
        assert(runs =~= if run_delta(log, at, m as int) % 100 == 0 {
            before.insert(m as int)
        } else {
            before
        });
    }
}

proof fn lemma_predictable(log: Seq<u64>, at: int, n: nat, i: int)
    requires
        0 <= i < n,
    ensures
        stuck_at(samples_of(log, at, n), i) == is_predictable(log, at, i),
{
    let s = samples_of(log, at, n);
    assert(delta_at(s, i) == evaluated(log, at, i));
    assert(delta_at(s, i - 1) == evaluated(log, at, i - 1));
    assert(delta_at(s, i - 2) == evaluated(log, at, i - 2));
    law_stuck_delta_is_predictable(delta_at(s, i - 2), delta_at(s, i - 1), delta_at(s, i));
}

proof fn lemma_predictable_runs(log: Seq<u64>, at: int, n: nat)
    ensures
        predictable_runs(log, at, n as int).finite(),
        predictable_runs(log, at, n as int).len() == stuck_count(samples_of(log, at, n)),
    decreases n,
{
    let runs = predictable_runs(log, at, n as int);
    if n <= 100 {
        assert(runs =~= Set::<int>::empty());
    } else {
        let m = (n - 1) as nat;
        let before = predictable_runs(log, at, m as int);
        lemma_predictable_runs(log, at, m);
        lemma_fewer_samples(log, at, n);
        lemma_predictable(log, at, n, m as int);
        assert(runs =~= if is_predictable(log, at, m as int) {
            before.insert(m as int)
        } else {
            before
        });
    }
}

proof fn lemma_total_distance(log: Seq<u64>, at: int, n: nat)
    ensures
        (total_distance(log, at, n) - variation(samples_of(log, at, n)))
            % 0x1_0000_0000_0000_0000 == 0,
    decreases n,
{
    if n > 100 {
        let m = (n - 1) as nat;
        let s = samples_of(log, at, n);
        lemma_total_distance(log, at, m);
        lemma_fewer_samples(log, at, n);
        assert(delta_at(s, m as int) == evaluated(log, at, m as int));
        assert(delta_at(s, m - 1) == evaluated(log, at, m - 1));
        law_change_is_the_distance(delta_at(s, m - 1), delta_at(s, m as int));
    }
}

/// The totals of a test count the runs that they are said to count, and add up the
/// distances.
pub proof fn law_totals_count_runs(log: Seq<u64>, at: int, n: nat)
    ensures
        backward_runs(log, at, n as int).len() == backwards_count(samples_of(log, at, n)),
        coarse_runs(log, at, n as int).len() == coarse_count(samples_of(log, at, n)),
        predictable_runs(log, at, n as int).len() == stuck_count(samples_of(log, at, n)),
        (total_distance(log, at, n) - variation(samples_of(log, at, n)))
            % 0x1_0000_0000_0000_0000 == 0,
{
    lemma_backward_runs(log, at, n);
    lemma_coarse_runs(log, at, n);
    lemma_predictable_runs(log, at, n);
    lemma_total_distance(log, at, n);
}

/// Two readings, taken before and after a run, that show that there is no usable
/// timer: one of them is 0, or they are the same in their lower 32 bits.
pub open spec fn is_useless(start: u64, end: u64) -> bool {
    start == 0 || end == 0 || (end - start) % 0x1_0000_0000 == 0
}

/// A timer test takes a reading and then four more for each of its runs, of which
/// there are 400 at most. It ends early with the first run whose readings are
/// useless, and only with such a run: with no timer if a reading is 0, and else with
/// a timer that is too coarse.
pub proof fn law_useless_readings_end_the_test(
    pre: RngState,
    post: RngState,
    r: Result<u8, TimerError>,
)
    requires
        test_spec(pre, post, r),
    ensures
        ({
            let log = post.readings;
            let at = pre.readings.len() as int + 1;
            let n = (log.len() - at) / 4;
            let start = log[at + 4 * (n - 1)];
            let end = log[at + 4 * (n - 1) + 3];
            &&& 1 <= n <= 400
            &&& log.len() == at + 4 * n
            &&& pre.readings.is_prefix_of(log)
            &&& forall|i: int|
                #![trigger log[at + 4 * i]]
                #![trigger log[at + 4 * i + 3]]
                0 <= i < n - 1 ==> !is_useless(log[at + 4 * i], log[at + 4 * i + 3])
            &&& n < 400 ==> is_useless(start, end)
            &&& r == Err::<u8, TimerError>(TimerError::NoTimer) <==> start == 0 || end == 0
            &&& start != 0 && end != 0 && is_useless(start, end) ==> r == Err::<u8, TimerError>(
                TimerError::CoarseTimer,
            )
        }),
{
    let log = post.readings;
    let at = pre.readings.len() as int + 1;
    let n = test_runs(pre, post);
    let s = samples_of(log, at, n);
    assert(log.len() == at + 4 * n);
    assert(pre.readings =~= log.subrange(0, pre.readings.len() as int));
    assert forall|i: int| 0 <= i < n - 1 implies !is_useless(
        #[trigger] log[at + 4 * i],
        log[at + 4 * i + 3],
    ) by {
        assert(s[i].fault() is None);
        law_delta_is_congruent(s[i].start, s[i].end);
    }
    assert forall|i: int| 0 <= i < n - 1 implies !is_useless(
        log[at + 4 * i],
        #[trigger] log[at + 4 * i + 3],
    ) by {
        assert(s[i].fault() is None);
        law_delta_is_congruent(s[i].start, s[i].end);
    }
    assert(s.last() == s[n - 1]);
    law_delta_is_congruent(s.last().start, s.last().end);
}

/// A test that ends with no useless readings judges the timer by its last 300 runs.
/// It is refused
/// - as not monotonic, if it did not increase over more than 3 of them;
/// - else for too small variations, if their times vary by less than 300 in all;
/// - else as too coarse, if more than 270 of them took a multiple of 100;
/// - else as stuck, if more than 270 of them are predictable;
/// - else for too small variations, if their times vary by less than 600 in all.
///
/// In no other case is it refused. The number of rounds is then that for the average
/// variation.
pub proof fn law_test_judges_by_the_readings(
    pre: RngState,
    post: RngState,
    r: Result<u8, TimerError>,
)
    requires
        test_spec(pre, post, r),
        post.readings.len() == pre.readings.len() + 1601,
        !is_useless(
            post.readings[post.readings.len() - 4],
            post.readings[post.readings.len() - 1],
        ),
    ensures
        ({
            let log = post.readings;
            let at = pre.readings.len() as int + 1;
            let backward = backward_runs(log, at, 400).len();
            let coarse = coarse_runs(log, at, 400).len();
            let predictable = predictable_runs(log, at, 400).len();
            let varied = total_distance(log, at, 400) % 0x1_0000_0000_0000_0000;
            if backward > 3 {
                r == Err::<u8, TimerError>(TimerError::NotMonotonic)
            } else if varied < 300 {
                r == Err::<u8, TimerError>(TimerError::TinyVariantions)
            } else if coarse > 270 {
                r == Err::<u8, TimerError>(TimerError::CoarseTimer)
            } else if predictable > 270 {
                r == Err::<u8, TimerError>(TimerError::TooManyStuck)
            } else if varied < 600 {
                r == Err::<u8, TimerError>(TimerError::TinyVariantions)
            } else {
                r is Ok && rounds_spec((varied / 300) as u64) == Some(r->Ok_0)
            }
        }),
{
    let log = post.readings;
    let at = pre.readings.len() as int + 1;
    assert(test_runs(pre, post) == 400);
    let s = samples_of(log, at, 400);
    assert(s.last() == s[399]);
    law_delta_is_congruent(s.last().start, s.last().end);
    law_totals_count_runs(log, at, 400);
    law_rounds_need_variation((variation(s) / 300) as u64);
    assert(total_distance(log, at, 400) % 0x1_0000_0000_0000_0000 == variation(s));
}

/// A timer that passes the test gives 64 bits of entropy in as many rounds as the test
/// says, and in no fewer, if a round yields half as many bits as the average variation
/// of the times has binary digits.
pub proof fn law_tested_rounds_are_just_enough(
    pre: RngState,
    post: RngState,
    rounds: u8,
    average: u64,
    digits: nat,
)
    requires
        test_spec(pre, post, Ok(rounds)),
        average == total_distance(post.readings, pre.readings.len() as int + 1, 400)
            % 0x1_0000_0000_0000_0000 / 300,
        average >= 16,
        digits > 0,
        pow(2, (digits - 1) as nat) <= average < pow(2, digits),
    ensures
        rounds * digits >= 128,
        (rounds - 1) * digits < 128,
{
    law_useless_readings_end_the_test(pre, post, Ok(rounds));
    law_test_judges_by_the_readings(pre, post, Ok(rounds));
    law_rounds_are_just_enough(average, digits);
}

} // verus!
